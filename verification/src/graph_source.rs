//! Finding the functions of a source file and what they call.

use vstd::prelude::*;
use vstd::slice::slice_subrange;
use crate::graph::{
    build_graph, call_lists, call_models, extracts, function_model, function_models, graph_of,
    CallSite, FoundFunction, FunctionModel, GraphExtraction,
};
use crate::pieces::{contains_string, find_char, lemma_position_of, position_of, push_text, texts};
use crate::regexes::{capture_spans, regex_spans, spans_fit, spans_view};
use crate::sizes::{byte_length, count_of, lemma_size_take, utf8_size};
use crate::spans::{
    byte_offsets, char_index, cut_piece, index_of_byte, is_span, lemma_span, offsets_of, piece,
};
use crate::text::{chars_of, is_white_space, law_trimmed, string_of, trim, trim_str, trimmed};

verus! {

/// The languages whose functions are found by pattern.
#[derive(Debug, Clone, Copy, PartialEq, Eq, Structural)]
pub enum SourceLanguage {
    Rust,
    Python,
    Swift,
}

/// A function of Rust, up to the end of its parameters.
pub const RUST_FUNCTION: &'static str =
    r"(?m)^(?P<indent>\s*)(?P<prefix>pub\s+)?(?P<async>async\s+)?fn\s+(?P<name>[A-Za-z_][A-Za-z0-9_]*)\s*\((?P<params>[^)]*)\)";

/// A function of Python, up to the colon behind its parameters.
pub const PYTHON_FUNCTION: &'static str =
    r"(?m)^(?P<indent>[ \t]*)(?P<async>async\s+)?def\s+(?P<name>[A-Za-z_][A-Za-z0-9_]*)\s*\((?P<params>[^)]*)\):";

/// A function of Swift, up to the end of its parameters.
pub const SWIFT_FUNCTION: &'static str =
    r"(?m)^(?P<indent>\s*)(?P<prefix>[A-Za-z0-9_\s@:<>=\(\)\[\]]*?)func\s+(?P<name>[A-Za-z_][A-Za-z0-9_]*)\s*\((?P<params>[^)]*)\)";

/// A name with an opening bracket behind it.
pub const CALL: &'static str = r"([A-Za-z_][A-Za-z0-9_]*)\s*\(";

/// The pattern of a language's functions.
pub open spec fn function_pattern(language: SourceLanguage) -> Seq<char> {
    match language {
        SourceLanguage::Rust => RUST_FUNCTION@,
        SourceLanguage::Python => PYTHON_FUNCTION@,
        SourceLanguage::Swift => SWIFT_FUNCTION@,
    }
}

/// The words of a language that may stand in front of a bracket and are no call.
pub open spec fn forbidden_names(language: SourceLanguage) -> Seq<Seq<char>> {
    match language {
        SourceLanguage::Rust => seq![
            "if"@, "match"@, "while"@, "loop"@, "for"@, "return"@, "println"@, "format"@,
        ],
        SourceLanguage::Python => seq![
            "if"@, "for"@, "while"@, "return"@, "elif"@, "else"@, "with"@, "class"@, "await"@,
        ],
        SourceLanguage::Swift => seq![
            "if"@, "for"@, "while"@, "switch"@, "catch"@, "guard"@, "return"@, "init"@, "deinit"@,
        ],
    }
}

fn forbidden(language: SourceLanguage) -> (r: Vec<String>)
    ensures
        texts(r@) == forbidden_names(language),
{
    let mut out: Vec<String> = Vec::new();
    match language {
        SourceLanguage::Rust => {
            push_text(&mut out, "if".to_owned());
            push_text(&mut out, "match".to_owned());
            push_text(&mut out, "while".to_owned());
            push_text(&mut out, "loop".to_owned());
            push_text(&mut out, "for".to_owned());
            push_text(&mut out, "return".to_owned());
            push_text(&mut out, "println".to_owned());
            push_text(&mut out, "format".to_owned());
        },
        SourceLanguage::Python => {
            push_text(&mut out, "if".to_owned());
            push_text(&mut out, "for".to_owned());
            push_text(&mut out, "while".to_owned());
            push_text(&mut out, "return".to_owned());
            push_text(&mut out, "elif".to_owned());
            push_text(&mut out, "else".to_owned());
            push_text(&mut out, "with".to_owned());
            push_text(&mut out, "class".to_owned());
            push_text(&mut out, "await".to_owned());
        },
        SourceLanguage::Swift => {
            push_text(&mut out, "if".to_owned());
            push_text(&mut out, "for".to_owned());
            push_text(&mut out, "while".to_owned());
            push_text(&mut out, "switch".to_owned());
            push_text(&mut out, "catch".to_owned());
            push_text(&mut out, "guard".to_owned());
            push_text(&mut out, "return".to_owned());
            push_text(&mut out, "init".to_owned());
            push_text(&mut out, "deinit".to_owned());
        },
    }
    assert(texts(out@) =~= forbidden_names(language));
    out
}

// ---------------------------------------------------------------------------
// Braces
// ---------------------------------------------------------------------------

/// Between the two places at least as many braces are closed as are opened, and the last
/// character closes one.
pub open spec fn closes_at(s: Seq<char>, open: int, end: int) -> bool {
    &&& 0 <= open < end <= s.len()
    &&& s[end - 1] == '}'
    &&& count_of(s.subrange(open, end), '{') <= count_of(s.subrange(open, end), '}')
}

/// The place behind the brace that closes what stands open from `open` on.
pub open spec fn matching_end(s: Seq<char>, open: int, end: int) -> bool {
    closes_at(s, open, end) && forall|e: int| e < end ==> !#[trigger] closes_at(s, open, e)
}

proof fn lemma_count_next(s: Seq<char>, from: int, i: int, c: char)
    requires
        0 <= from <= i < s.len(),
    ensures
        count_of(s.subrange(from, i + 1), c) == count_of(s.subrange(from, i), c) + if s[i] == c {
            1nat
        } else {
            0nat
        },
{
    let t = s.subrange(from, i + 1);
    assert(t.drop_last() =~= s.subrange(from, i));
    assert(t.last() == s[i]);
}

/// The place behind the brace that closes what stands open from `open` on, where there is
/// one.
pub fn find_matching_brace(s: &[char], open: usize) -> (r: Option<usize>)
    ensures
        match r {
            Some(end) => matching_end(s@, open as int, end as int),
            None => forall|e: int| !#[trigger] closes_at(s@, open as int, e),
        },
{
    if open >= s.len() {
        return None;
    }
    let mut depth: usize = 0;
    let mut i: usize = open;
    assert(s@.subrange(open as int, open as int).len() == 0);
    while i < s.len()
        invariant
            open <= i <= s@.len(),
            depth <= i - open,
            depth == count_of(s@.subrange(open as int, i as int), '{') - count_of(
                s@.subrange(open as int, i as int),
                '}',
            ),
            forall|e: int| e <= i ==> !#[trigger] closes_at(s@, open as int, e),
        decreases s.len() - i,
    {
        let c = s[i];
        proof {
            lemma_count_next(s@, open as int, i as int, '{');
            lemma_count_next(s@, open as int, i as int, '}');
        }
        if c == '{' {
            depth += 1;
        } else if c == '}' {
            if depth <= 1 {
                assert(closes_at(s@, open as int, i + 1));
                return Some(i + 1);
            }
            depth -= 1;
        }
        assert(!closes_at(s@, open as int, i + 1));
        i += 1;
    }
    None
}

/// From an opening brace on, the matching end closes exactly what was opened, and at no
/// place before it was as much closed as opened.
pub proof fn law_matching_brace(s: Seq<char>, open: int, end: int)
    requires
        0 <= open < s.len(),
        s[open] == '{',
        matching_end(s, open, end),
    ensures
        count_of(s.subrange(open, end), '{') == count_of(s.subrange(open, end), '}'),
        forall|p: int|
            open < p < end ==> count_of(#[trigger] s.subrange(open, p), '{') > count_of(
                s.subrange(open, p),
                '}',
            ),
{
    lemma_open_before_end(s, open, end, end - 1);
    lemma_count_next(s, open, end - 1, '{');
    lemma_count_next(s, open, end - 1, '}');
    assert forall|p: int| open < p < end implies count_of(#[trigger] s.subrange(open, p), '{')
        > count_of(s.subrange(open, p), '}') by {
        lemma_open_before_end(s, open, end, p);
    }
}

proof fn lemma_open_before_end(s: Seq<char>, open: int, end: int, p: int)
    requires
        0 <= open < s.len(),
        s[open] == '{',
        matching_end(s, open, end),
        open < p < end,
    ensures
        count_of(s.subrange(open, p), '{') > count_of(s.subrange(open, p), '}'),
    decreases p - open,
{
    lemma_count_next(s, open, p - 1, '{');
    lemma_count_next(s, open, p - 1, '}');
    assert(!closes_at(s, open, p));
    if p == open + 1 {
        assert(s.subrange(open, p - 1).len() == 0);
    } else {
        lemma_open_before_end(s, open, end, p - 1);
    }
}

/// The first place from `from` on where `c` stands, or the end.
pub open spec fn next_position(s: Seq<char>, c: char, from: int) -> int {
    from + position_of(s.skip(from), c)
}

fn find_next(s: &[char], c: char, from: usize) -> (r: usize)
    requires
        from <= s@.len(),
    ensures
        r == next_position(s@, c, from as int),
        from <= r <= s@.len(),
        r < s@.len() ==> s@[r as int] == c,
{
    let rest = slice_subrange(s, from, s.len());
    assert(rest@ =~= s@.skip(from as int));
    proof {
        lemma_position_of(rest@, c);
    }
    from + find_char(rest, c)
}

/// Where the braces that open at `open` are closed; the end of the text where they never
/// are.
pub open spec fn body_close(s: Seq<char>, open: int) -> int {
    if exists|e: int| closes_at(s, open, e) {
        choose|e: int| matching_end(s, open, e)
    } else {
        s.len() as int
    }
}

fn find_body_close(s: &[char], open: usize) -> (r: usize)
    requires
        open < s@.len(),
    ensures
        r == body_close(s@, open as int),
        open <= r <= s@.len(),
{
    match find_matching_brace(s, open) {
        Some(end) => {
            proof {
                assert(matching_end(s@, open as int, end as int));
                let e = choose|e: int| matching_end(s@, open as int, e);
                assert(closes_at(s@, open as int, e));
                assert(closes_at(s@, open as int, end as int));
            }
            end
        },
        None => s.len(),
    }
}

// ---------------------------------------------------------------------------
// Indented bodies
// ---------------------------------------------------------------------------

/// The run of spaces and tabs that a line begins with.
pub open spec fn indent_of(line: Seq<char>) -> nat
    decreases line.len(),
{
    if line.len() > 0 && (line[0] == ' ' || line[0] == '\t') {
        1 + indent_of(line.drop_first())
    } else {
        0
    }
}

fn line_indent(line: &[char]) -> (r: usize)
    ensures
        r == indent_of(line@),
{
    let mut i: usize = 0;
    assert(line@.skip(0) =~= line@);
    while i < line.len() && (line[i] == ' ' || line[i] == '\t')
        invariant
            i <= line@.len(),
            indent_of(line@) == i + indent_of(line@.skip(i as int)),
        decreases line.len() - i,
    {
        assert(line@.skip(i as int).drop_first() =~= line@.skip(i + 1));
        i += 1;
    }
    i
}

/// A line that belongs to code: it is neither blank nor a comment.
pub open spec fn is_code_line(line: Seq<char>) -> bool {
    trimmed(line).len() > 0 && trimmed(line)[0] != '#'
}

/// Where an indented body ends that is read from the line at `i` on, when its last line of
/// code so far ends at `last`: before the first line of code that is indented no deeper
/// than `indent`.
pub open spec fn indented_end(s: Seq<char>, i: int, last: int, indent: nat) -> int
    decreases s.len() + 1 - i,
    via indented_end_decreases
{
    if i < 0 || i >= s.len() {
        last
    } else {
        let nl = next_position(s, '\n', i);
        let line = s.subrange(i, nl);
        if !is_code_line(line) {
            indented_end(s, nl + 1, last, indent)
        } else if indent_of(line) <= indent {
            last
        } else {
            indented_end(s, nl + 1, nl, indent)
        }
    }
}

#[via_fn]
proof fn indented_end_decreases(s: Seq<char>, i: int, last: int, indent: nat) {
    lemma_position_of(s.skip(i), '\n');
}

/// The end of the body that begins at `start`, behind a definition with that indent.
fn find_indented_end(s: &[char], start: usize, indent: usize) -> (r: usize)
    requires
        start <= s@.len(),
    ensures
        r == indented_end(s@, start as int, start as int, indent as nat),
        start <= r <= s@.len(),
{
    let mut i: usize = start;
    let mut last: usize = start;
    let ghost goal = indented_end(s@, start as int, start as int, indent as nat);
    while i < s.len()
        invariant
            start <= last <= s@.len(),
            start <= i <= s@.len(),
            indented_end(s@, i as int, last as int, indent as nat) == goal,
            goal == indented_end(s@, start as int, start as int, indent as nat),
        decreases s.len() - i,
    {
        let nl = find_next(s, '\n', i);
        let line = slice_subrange(s, i, nl);
        assert(line@ =~= s@.subrange(i as int, nl as int));
        let t = trim(line);
        if t.len() > 0 && t[0] != '#' {
            if line_indent(line) <= indent {
                return last;
            }
            last = nl;
        }
        if nl == s.len() {
            assert(indented_end(s@, nl + 1, last as int, indent as nat) == last);
            return last;
        }
        i = nl + 1;
    }
    last
}

// ---------------------------------------------------------------------------
// Functions
// ---------------------------------------------------------------------------

/// A group of a match.
pub open spec fn group(g: Seq<Option<(usize, usize)>>, k: int) -> Option<(usize, usize)> {
    if 0 <= k < g.len() {
        g[k]
    } else {
        None
    }
}

/// The text of a group; empty where it takes no part.
pub open spec fn group_text(s: Seq<char>, g: Seq<Option<(usize, usize)>>, k: int) -> Seq<char> {
    match group(g, k) {
        Some((start, end)) => piece(s, start, end),
        None => ""@,
    }
}

/// The groups of a match lie in the text.
pub open spec fn groups_fit(s: Seq<char>, g: Seq<Option<(usize, usize)>>) -> bool {
    forall|j: int|
        0 <= j < g.len() ==> match #[trigger] g[j] {
            Some((start, end)) => is_span(s, start, end),
            None => true,
        }
}

fn get_group(s: Ghost<Seq<char>>, g: &Vec<Option<(usize, usize)>>, k: usize) -> (r: Option<
    (usize, usize),
>)
    requires
        groups_fit(s@, g@),
    ensures
        r == group(g@, k as int),
        r matches Some((start, end)) ==> is_span(s@, start, end),
{
    if k < g.len() {
        let found = g[k];
        assert(g@[k as int] == found);
        found
    } else {
        None
    }
}

fn get_group_text(
    s: &[char],
    offsets: &Vec<usize>,
    g: &Vec<Option<(usize, usize)>>,
    k: usize,
) -> (r: String)
    requires
        groups_fit(s@, g@),
        offsets_of(s@, offsets@),
    ensures
        r@ == group_text(s@, g@, k as int),
{
    match get_group(Ghost(s@), g, k) {
        Some((start, end)) => cut_piece(s, offsets, start, end),
        None => "".to_owned(),
    }
}

/// What a function's node carries in Rust.
pub open spec fn rust_metadata(is_async: bool, is_public: bool) -> Seq<char> {
    match (is_async, is_public) {
        (true, true) => "{\"async\":true,\"visibility\":\"public\"}"@,
        (true, false) => "{\"async\":true,\"visibility\":\"private\"}"@,
        (false, true) => "{\"async\":false,\"visibility\":\"public\"}"@,
        (false, false) => "{\"async\":false,\"visibility\":\"private\"}"@,
    }
}

/// What a function's node carries in Python.
pub open spec fn python_metadata(is_async: bool) -> Seq<char> {
    if is_async {
        "{\"async\":true}"@
    } else {
        "{\"async\":false}"@
    }
}

/// Which group of a match is the name, which the parameters.
pub open spec fn name_group(language: SourceLanguage) -> int {
    match language {
        SourceLanguage::Rust => 4,
        SourceLanguage::Python => 3,
        SourceLanguage::Swift => 3,
    }
}

/// The word that a signature begins with.
pub open spec fn function_word(language: SourceLanguage) -> Seq<char> {
    match language {
        SourceLanguage::Rust => "fn "@,
        SourceLanguage::Python => "def "@,
        SourceLanguage::Swift => "func "@,
    }
}

/// Where the body of a function lies whose head ends at the character `at`: `None` where
/// no brace opens one.
pub open spec fn body_of(
    language: SourceLanguage,
    s: Seq<char>,
    at: int,
    indent: nat,
) -> Option<(int, int)> {
    match language {
        SourceLanguage::Python => {
            let nl = next_position(s, '\n', at);
            let start = if nl < s.len() {
                nl + 1
            } else {
                nl
            };
            Some((start, indented_end(s, start, start, indent)))
        },
        _ => {
            let open = next_position(s, '{', at);
            if open < s.len() {
                Some((open, body_close(s, open)))
            } else {
                None
            }
        },
    }
}

/// The characters from `a` up to `b` are a line of the text, without its line feed.
pub open spec fn whole_line(s: Seq<char>, a: int, b: int) -> bool {
    &&& 0 <= a <= b <= s.len()
    &&& a == 0 || s[a - 1] == '\n'
    &&& b == s.len() || s[b] == '\n'
    &&& forall|i: int| a <= i < b ==> s[i] != '\n'
}

/// A line of code: something is visible on it, and the first of that begins no comment.
pub open spec fn line_of_code(s: Seq<char>, a: int, b: int) -> bool {
    whole_line(s, a, b) && exists|i: int|
        {
            &&& a <= i < b
            &&& !is_white_space(#[trigger] s[i])
            &&& s[i] != '#'
            &&& forall|j: int| a <= j < i ==> is_white_space(s[j])
        }
}

/// More than `n` spaces and tabs stand in front of the line from `a` to `b`.
pub open spec fn set_deeper(s: Seq<char>, a: int, b: int, n: nat) -> bool {
    a + n < b && forall|j: int| a <= j <= a + n ==> s[j] == ' ' || s[j] == '\t'
}

proof fn lemma_deeper(s: Seq<char>, a: int, b: int, n: nat)
    requires
        0 <= a <= b <= s.len(),
    ensures
        indent_of(s.subrange(a, b)) > n <==> set_deeper(s, a, b, n),
    decreases n,
{
    let line = s.subrange(a, b);
    if line.len() > 0 && (line[0] == ' ' || line[0] == '\t') {
        assert(line.drop_first() =~= s.subrange(a + 1, b));
        if n > 0 {
            lemma_deeper(s, a + 1, b, (n - 1) as nat);
            if set_deeper(s, a + 1, b, (n - 1) as nat) {
                assert forall|j: int| a <= j <= a + n implies s[j] == ' ' || s[j] == '\t' by {
                    if j == a {
                        assert(line[0] == s[a]);
                    }
                }
            }
        } else {
            assert(line[0] == s[a]);
        }
    } else if a < b {
        assert(line[0] == s[a]);
        assert(!set_deeper(s, a, b, n));
    }
}

proof fn lemma_line_of_code(s: Seq<char>, a: int, b: int)
    requires
        whole_line(s, a, b),
    ensures
        line_of_code(s, a, b) <==> is_code_line(s.subrange(a, b)),
{
    let line = s.subrange(a, b);
    law_trimmed(line);
    let (x, y) = choose|x: int, y: int|
        {
            &&& 0 <= x <= y <= line.len()
            &&& trimmed(line) == #[trigger] line.subrange(x, y)
            &&& forall|i: int| 0 <= i < x ==> is_white_space(line[i])
            &&& forall|i: int| y <= i < line.len() ==> is_white_space(line[i])
            &&& x < y ==> !is_white_space(line[x]) && !is_white_space(line[y - 1])
        };
    assert forall|j: int| a <= j < b implies #[trigger] s[j] == line[j - a] by {}
    if x < y {
        assert(trimmed(line)[0] == s[a + x]);
        assert(!is_white_space(s[a + x]));
        assert forall|j: int| a <= j < a + x implies is_white_space(s[j]) by {
            assert(line[j - a] == s[j]);
        }
        if line_of_code(s, a, b) {
            let i = choose|i: int|
                {
                    &&& a <= i < b
                    &&& !is_white_space(#[trigger] s[i])
                    &&& s[i] != '#'
                    &&& forall|j: int| a <= j < i ==> is_white_space(s[j])
                };
            assert(i == a + x);
        }
    } else {
        assert forall|j: int| a <= j < b implies is_white_space(#[trigger] s[j]) by {
            assert(line[j - a] == s[j]);
        }
    }
}

proof fn lemma_indented_end(s: Seq<char>, start: int, i: int, last: int, indent: nat)
    requires
        0 <= start <= last <= s.len(),
        last <= i <= s.len() + 1,
        i == 0 || i > s.len() || s[i - 1] == '\n' || (i == s.len() && i == start),
        forall|a: int, b: int|
            #[trigger] line_of_code(s, a, b) && start <= a && b <= last ==> set_deeper(
                s,
                a,
                b,
                indent,
            ),
        last == start || exists|a: int| start <= a && #[trigger] line_of_code(s, a, last),
        forall|a: int, b: int| #[trigger] line_of_code(s, a, b) && last <= a ==> i <= a,
    ensures
        ({
            let end = indented_end(s, i, last, indent);
            &&& start <= end <= s.len()
            &&& forall|a: int, b: int|
                #[trigger] line_of_code(s, a, b) && start <= a && b <= end ==> set_deeper(
                    s,
                    a,
                    b,
                    indent,
                )
            &&& end == start || exists|a: int| start <= a && #[trigger] line_of_code(s, a, end)
            &&& (forall|a: int, b: int| #[trigger] line_of_code(s, a, b) ==> a < end) || exists|
                a: int,
                b: int,
            |
                {
                    &&& end <= a
                    &&& #[trigger] line_of_code(s, a, b)
                    &&& !set_deeper(s, a, b, indent)
                    &&& forall|x: int, y: int| #[trigger] line_of_code(s, x, y) && end <= x ==> a <= x
                }
        }),
    decreases s.len() + 1 - i,
{
    if i < s.len() {
        let rest = s.skip(i);
        lemma_position_of(rest, '\n');
        let nl = next_position(s, '\n', i);
        assert forall|j: int| i <= j < nl implies s[j] != '\n' by {
            assert(rest[j - i] == s[j]);
        }
        if nl < s.len() {
            assert(rest[nl - i] == s[nl]);
        }
        assert(whole_line(s, i, nl));
        lemma_line_of_code(s, i, nl);
        lemma_deeper(s, i, nl, indent);
        assert forall|a: int, b: int|
            #[trigger] line_of_code(s, a, b) && i <= a implies (a == i && b == nl) || nl < a by {
            if a == i {
                if b < nl {
                    assert(s[b] == '\n');
                } else if b > nl {
                    assert(s[nl] == '\n');
                }
            } else if a <= nl {
                assert(s[a - 1] == '\n');
            }
        }
        let line = s.subrange(i, nl);
        if !is_code_line(line) {
            lemma_indented_end(s, start, nl + 1, last, indent);
        } else if indent_of(line) <= indent {
            assert(line_of_code(s, i, nl));
        } else {
            assert(line_of_code(s, i, nl));
            assert forall|a: int, b: int|
                #[trigger] line_of_code(s, a, b) && start <= a && b <= nl implies set_deeper(
                s,
                a,
                b,
                indent,
            ) by {
                if last <= a {
                    assert(i <= a);
                } else if b > last {
                    assert(last == start || s[last] == '\n');
                }
            }
            lemma_indented_end(s, start, nl + 1, nl, indent);
        }
    } else {
        assert forall|a: int, b: int| #[trigger] line_of_code(s, a, b) implies a < last by {}
    }
}

/// Every line of code in the body that is found for a definition of Python is set deeper
/// than the definition. The body begins on the line behind the definition's head and ends
/// with a line of code, unless it is empty; and the first line of code behind it, if there is
/// one, is set no deeper than the definition.
pub proof fn law_python_body(s: Seq<char>, at: int, indent: nat)
    requires
        0 <= at <= s.len(),
    ensures
        body_of(SourceLanguage::Python, s, at, indent) matches Some((from, to)) && {
            &&& at <= from <= to <= s.len()
            &&& from == s.len() || (from > at && s[from - 1] == '\n')
            &&& forall|i: int| at <= i < from - 1 ==> s[i] != '\n'
            &&& forall|a: int, b: int|
                #[trigger] line_of_code(s, a, b) && from <= a && b <= to ==> set_deeper(
                    s,
                    a,
                    b,
                    indent,
                )
            &&& to == from || exists|a: int| from <= a && #[trigger] line_of_code(s, a, to)
            &&& (forall|a: int, b: int| #[trigger] line_of_code(s, a, b) ==> a < to) || exists|
                a: int,
                b: int,
            |
                {
                    &&& to <= a
                    &&& #[trigger] line_of_code(s, a, b)
                    &&& !set_deeper(s, a, b, indent)
                    &&& forall|x: int, y: int| #[trigger] line_of_code(s, x, y) && to <= x ==> a <= x
                }
        },
{
    let rest = s.skip(at);
    lemma_position_of(rest, '\n');
    let nl = next_position(s, '\n', at);
    assert forall|j: int| at <= j < nl implies s[j] != '\n' by {
        assert(rest[j - at] == s[j]);
    }
    if nl < s.len() {
        assert(rest[nl - at] == s[nl]);
    }
    let start = if nl < s.len() {
        nl + 1
    } else {
        nl
    };
    assert forall|a: int, b: int|
        #[trigger] line_of_code(s, a, b) && start <= a && b <= start implies set_deeper(
        s,
        a,
        b,
        indent,
    ) by {}
    lemma_indented_end(s, start, start, start, indent);
}

/// The body that is found for a definition of Rust or Swift begins at the first opening
/// brace behind the definition's head. Where that brace is closed, the body ends right
/// behind the closing brace: as much is closed in it as is opened, and at no place before.
/// Where it is never closed, the body reaches to the end of the text. Without an opening
/// brace there is no body.
pub proof fn law_braced_body(language: SourceLanguage, s: Seq<char>, at: int, indent: nat)
    requires
        0 <= at <= s.len(),
        language != SourceLanguage::Python,
    ensures
        match body_of(language, s, at, indent) {
            Some((from, to)) => {
                &&& at <= from < s.len()
                &&& s[from] == '{'
                &&& forall|i: int| at <= i < from ==> s[i] != '{'
                &&& from < to <= s.len()
                &&& forall|p: int|
                    from < p < to ==> count_of(#[trigger] s.subrange(from, p), '{') > count_of(
                        s.subrange(from, p),
                        '}',
                    )
                &&& to < s.len() ==> s[to - 1] == '}' && count_of(s.subrange(from, to), '{')
                    == count_of(s.subrange(from, to), '}')
            },
            None => forall|i: int| at <= i < s.len() ==> s[i] != '{',
        },
{
    let rest = s.skip(at);
    lemma_position_of(rest, '{');
    let open = next_position(s, '{', at);
    assert forall|j: int| at <= j < open implies s[j] != '{' by {
        assert(rest[j - at] == s[j]);
    }
    if open < s.len() {
        assert(rest[open - at] == s[open]);
        if exists|e: int| closes_at(s, open, e) {
            lemma_first_close(s, open);
            let to = choose|e: int| matching_end(s, open, e);
            law_matching_brace(s, open, to);
        } else {
            assert forall|p: int| open < p < s.len() implies count_of(
                #[trigger] s.subrange(open, p),
                '{',
            ) > count_of(s.subrange(open, p), '}') by {
                lemma_never_closed(s, open, p);
            }
        }
    }
}

proof fn lemma_first_close(s: Seq<char>, open: int)
    requires
        exists|e: int| closes_at(s, open, e),
    ensures
        exists|e: int| matching_end(s, open, e),
{
    let e = choose|e: int| closes_at(s, open, e);
    lemma_first_close_before(s, open, e);
}

proof fn lemma_first_close_before(s: Seq<char>, open: int, e: int)
    requires
        closes_at(s, open, e),
    ensures
        exists|e: int| matching_end(s, open, e),
    decreases e,
{
    if exists|d: int| d < e && #[trigger] closes_at(s, open, d) {
        let d = choose|d: int| d < e && #[trigger] closes_at(s, open, d);
        lemma_first_close_before(s, open, d);
    } else {
        assert(matching_end(s, open, e));
    }
}

proof fn lemma_never_closed(s: Seq<char>, open: int, p: int)
    requires
        0 <= open < p <= s.len(),
        s[open] == '{',
        forall|e: int| !#[trigger] closes_at(s, open, e),
    ensures
        count_of(s.subrange(open, p), '{') > count_of(s.subrange(open, p), '}'),
    decreases p - open,
{
    lemma_count_next(s, open, p - 1, '{');
    lemma_count_next(s, open, p - 1, '}');
    assert(!closes_at(s, open, p));
    if p == open + 1 {
        assert(s.subrange(open, p - 1).len() == 0);
    } else {
        lemma_never_closed(s, open, p - 1);
    }
}

/// What the node of a function carries.
pub open spec fn metadata_of(
    language: SourceLanguage,
    g: Seq<Option<(usize, usize)>>,
) -> Option<Seq<char>> {
    match language {
        SourceLanguage::Rust => Some(rust_metadata(group(g, 3) is Some, group(g, 2) is Some)),
        SourceLanguage::Python => Some(python_metadata(group(g, 2) is Some)),
        SourceLanguage::Swift => None,
    }
}

/// The function that a match stands for.
pub open spec fn function_at(
    language: SourceLanguage,
    s: Seq<char>,
    g: Seq<Option<(usize, usize)>>,
) -> Option<FunctionModel> {
    let k = name_group(language);
    match (group(g, 0), group(g, k)) {
        (Some((start, end)), Some(_)) => {
            let name = group_text(s, g, k);
            match body_of(
                language,
                s,
                char_index(s, end),
                utf8_size(group_text(s, g, 1)),
            ) {
                Some((from, to)) => Some(
                    FunctionModel {
                        name,
                        signature: function_word(language) + name + "("@ + trimmed(
                            group_text(s, g, k + 1),
                        ) + ")"@,
                        start,
                        body_start: utf8_size(s.take(from)) as usize,
                        body_end: utf8_size(s.take(to)) as usize,
                        body: s.subrange(from, to),
                        metadata: metadata_of(language, g),
                    },
                ),
                None => None,
            }
        },
        _ => None,
    }
}

/// The functions that the matches stand for.
pub open spec fn functions_at(
    language: SourceLanguage,
    s: Seq<char>,
    spans: Seq<Seq<Option<(usize, usize)>>>,
) -> Seq<FunctionModel>
    decreases spans.len(),
{
    if spans.len() == 0 {
        Seq::empty()
    } else {
        let found = functions_at(language, s, spans.drop_last());
        match function_at(language, s, spans.last()) {
            Some(f) => found.push(f),
            None => found,
        }
    }
}

fn find_body(language: SourceLanguage, s: &[char], at: usize, indent: usize) -> (r: Option<
    (usize, usize),
>)
    requires
        at <= s@.len(),
    ensures
        match r {
            Some((from, to)) => {
                &&& body_of(language, s@, at as int, indent as nat) == Some((from as int, to as int))
                &&& from <= to <= s@.len()
            },
            None => body_of(language, s@, at as int, indent as nat) is None,
        },
{
    match language {
        SourceLanguage::Python => {
            let nl = find_next(s, '\n', at);
            let start: usize = if nl < s.len() {
                nl + 1
            } else {
                nl
            };
            let end = find_indented_end(s, start, indent);
            Some((start, end))
        },
        SourceLanguage::Rust | SourceLanguage::Swift => {
            let open = find_next(s, '{', at);
            if open < s.len() {
                Some((open, find_body_close(s, open)))
            } else {
                None
            }
        },
    }
}

fn describe_metadata(language: SourceLanguage, g: &Vec<Option<(usize, usize)>>) -> (r: Option<
    String,
>)
    ensures
        crate::bundle_graph::text_of(r) == metadata_of(language, g@),
{
    let second = g.len() > 2 && g[2].is_some();
    let third = g.len() > 3 && g[3].is_some();
    match language {
        SourceLanguage::Rust => Some(
            match (third, second) {
                (true, true) => "{\"async\":true,\"visibility\":\"public\"}".to_owned(),
                (true, false) => "{\"async\":true,\"visibility\":\"private\"}".to_owned(),
                (false, true) => "{\"async\":false,\"visibility\":\"public\"}".to_owned(),
                (false, false) => "{\"async\":false,\"visibility\":\"private\"}".to_owned(),
            },
        ),
        SourceLanguage::Python => Some(
            if second {
                "{\"async\":true}".to_owned()
            } else {
                "{\"async\":false}".to_owned()
            },
        ),
        SourceLanguage::Swift => None,
    }
}

/// The function that a match stands for.
fn find_function(
    language: SourceLanguage,
    s: &[char],
    offsets: &Vec<usize>,
    g: &Vec<Option<(usize, usize)>>,
) -> (r: Option<FoundFunction>)
    requires
        groups_fit(s@, g@),
        offsets_of(s@, offsets@),
        utf8_size(s@) <= usize::MAX,
    ensures
        match r {
            Some(f) => {
                &&& function_at(language, s@, g@) == Some(function_model(f))
                &&& f.body_start + utf8_size(f.body@) <= usize::MAX
            },
            None => function_at(language, s@, g@) is None,
        },
{
    let k: usize = match language {
        SourceLanguage::Rust => 4,
        SourceLanguage::Python | SourceLanguage::Swift => 3,
    };
    let Some((start, end)) = get_group(Ghost(s@), g, 0) else {
        return None;
    };
    if get_group(Ghost(s@), g, k).is_none() {
        return None;
    }
    let name = get_group_text(s, offsets, g, k);
    let indent_text = get_group_text(s, offsets, g, 1);
    let indent = byte_length(indent_text.as_str());
    proof {
        lemma_span(s@, start, end);
    }
    let at = index_of_byte(s, offsets, end);
    match find_body(language, s, at, indent) {
        Some((from, to)) => {
            let params = get_group_text(s, offsets, g, k + 1);
            let mut signature = match language {
                SourceLanguage::Rust => "fn ".to_owned(),
                SourceLanguage::Python => "def ".to_owned(),
                SourceLanguage::Swift => "func ".to_owned(),
            };
            signature.append(name.as_str());
            signature.append("(");
            signature.append(trim_str(params.as_str()).as_str());
            signature.append(")");
            let body = string_of(slice_subrange(s, from, to));
            assert(body@ =~= s@.subrange(from as int, to as int));
            proof {
                lemma_size_take(s@, from as int, to as int);
            }
            let found = FoundFunction {
                name,
                signature,
                start,
                body_start: offsets[from],
                body_end: offsets[to],
                body,
                metadata: describe_metadata(language, g),
            };
            Some(found)
        },
        None => None,
    }
}

/// The bodies lie where their offsets say.
pub open spec fn bodies_fit(functions: Seq<FoundFunction>) -> bool {
    forall|i: int|
        0 <= i < functions.len() ==> (#[trigger] functions[i]).body_start + utf8_size(
            functions[i].body@,
        ) <= usize::MAX
}

/// The functions of a source file, given the matches of the language's pattern.
pub fn find_functions(
    language: SourceLanguage,
    source: &str,
    spans: &Vec<Vec<Option<(usize, usize)>>>,
) -> (r: Vec<FoundFunction>)
    requires
        spans_fit(spans_view(spans@), source@),
    ensures
        function_models(r@) == functions_at(language, source@, spans_view(spans@)),
        bodies_fit(r@),
{
    let total = byte_length(source);
    let s = chars_of(source);
    let offsets = byte_offsets(s.as_slice());
    let ghost all = spans_view(spans@);
    let mut out: Vec<FoundFunction> = Vec::new();
    let mut i: usize = 0;
    assert(function_models(out@) =~= functions_at(language, source@, all.take(0)));
    while i < spans.len()
        invariant
            i <= spans@.len(),
            s@ == source@,
            utf8_size(s@) == total,
            offsets_of(s@, offsets@),
            all == spans_view(spans@),
            spans_fit(all, source@),
            function_models(out@) == functions_at(language, source@, all.take(i as int)),
            bodies_fit(out@),
        decreases spans.len() - i,
    {
        let ghost g = spans@[i as int]@;
        proof {
            assert(all.take(i + 1).drop_last() =~= all.take(i as int));
            assert(all.take(i + 1).last() == g);
            assert(all[i as int] == g);
            assert forall|j: int| 0 <= j < g.len() implies match #[trigger] g[j] {
                Some((start, end)) => is_span(s@, start, end),
                None => true,
            } by {
                assert(all[i as int][j] == g[j]);
            }
        }
        if let Some(f) = find_function(language, s.as_slice(), &offsets, &spans[i]) {
            let ghost before = out@;
            out.push(f);
            assert(function_models(out@) =~= function_models(before).push(function_model(f)));
        }
        i += 1;
    }
    assert(all.take(i as int) =~= all);
    out
}

// ---------------------------------------------------------------------------
// Calls
// ---------------------------------------------------------------------------

/// The calls in a body that begins at a byte offset of the file, given the matches of the
/// call pattern.
pub open spec fn calls_at(
    language: SourceLanguage,
    body: Seq<char>,
    offset: usize,
    spans: Seq<Seq<Option<(usize, usize)>>>,
) -> Seq<(Seq<char>, usize)>
    decreases spans.len(),
{
    if spans.len() == 0 {
        Seq::empty()
    } else {
        let found = calls_at(language, body, offset, spans.drop_last());
        match group(spans.last(), 1) {
            Some((start, end)) => if forbidden_names(language).contains(piece(body, start, end)) {
                found
            } else {
                found.push((piece(body, start, end), (offset + start) as usize))
            },
            None => found,
        }
    }
}

/// The calls in a body, given the matches of the call pattern.
pub fn find_calls(
    language: SourceLanguage,
    body: &str,
    offset: usize,
    spans: &Vec<Vec<Option<(usize, usize)>>>,
) -> (r: Vec<CallSite>)
    requires
        spans_fit(spans_view(spans@), body@),
        offset + utf8_size(body@) <= usize::MAX,
    ensures
        call_models(r@) == calls_at(language, body@, offset, spans_view(spans@)),
{
    let total = byte_length(body);
    let s = chars_of(body);
    let offsets = byte_offsets(s.as_slice());
    let words = forbidden(language);
    let ghost all = spans_view(spans@);
    let mut out: Vec<CallSite> = Vec::new();
    let mut i: usize = 0;
    assert(call_models(out@) =~= calls_at(language, body@, offset, all.take(0)));
    while i < spans.len()
        invariant
            i <= spans@.len(),
            s@ == body@,
            utf8_size(s@) == total,
            offset + utf8_size(s@) <= usize::MAX,
            offsets_of(s@, offsets@),
            texts(words@) == forbidden_names(language),
            all == spans_view(spans@),
            spans_fit(all, body@),
            call_models(out@) == calls_at(language, body@, offset, all.take(i as int)),
        decreases spans.len() - i,
    {
        let ghost g = spans@[i as int]@;
        proof {
            assert(all.take(i + 1).drop_last() =~= all.take(i as int));
            assert(all.take(i + 1).last() == g);
            assert(all[i as int] == g);
            assert forall|j: int| 0 <= j < g.len() implies match #[trigger] g[j] {
                Some((start, end)) => is_span(s@, start, end),
                None => true,
            } by {
                assert(all[i as int][j] == g[j]);
            }
        }
        if let Some((start, end)) = get_group(Ghost(s@), &spans[i], 1) {
            let name = cut_piece(s.as_slice(), &offsets, start, end);
            if !contains_string(&words, name.as_str()) {
                proof {
                    lemma_span(s@, start, end);
                }
                let ghost before = out@;
                let call = CallSite { name, offset: offset + start };
                out.push(call);
                assert(call_models(out@) =~= call_models(before).push((call.name@, call.offset)));
            }
        }
        i += 1;
    }
    assert(all.take(i as int) =~= all);
    out
}

/// The calls of each function.
pub open spec fn calls_of(language: SourceLanguage, functions: Seq<FunctionModel>) -> Seq<
    Seq<(Seq<char>, usize)>,
> {
    Seq::new(
        functions.len(),
        |i: int|
            calls_at(
                language,
                functions[i].body,
                functions[i].body_start,
                regex_spans(CALL@, functions[i].body),
            ),
    )
}

/// The functions of a source text.
pub open spec fn source_functions(language: SourceLanguage, source: Seq<char>) -> Seq<
    FunctionModel,
> {
    functions_at(language, source, regex_spans(function_pattern(language), source))
}

/// The graph of a source file.
pub fn extract(language: SourceLanguage, path: &str, source: &str) -> (r: Option<GraphExtraction>)
    ensures
        extracts(
            r,
            graph_of(
                path@,
                source_functions(language, source@),
                calls_of(language, source_functions(language, source@)),
            ),
        ),
{
    let pattern = match language {
        SourceLanguage::Rust => RUST_FUNCTION,
        SourceLanguage::Python => PYTHON_FUNCTION,
        SourceLanguage::Swift => SWIFT_FUNCTION,
    };
    let spans = capture_spans(pattern, source);
    let functions = find_functions(language, source, &spans);
    let ghost fs = function_models(functions@);
    let ghost goal = calls_of(language, fs);
    let mut calls: Vec<Vec<CallSite>> = Vec::new();
    let mut i: usize = 0;
    assert(call_lists(calls@) =~= goal.take(0));
    while i < functions.len()
        invariant
            i <= functions@.len(),
            bodies_fit(functions@),
            fs == function_models(functions@),
            goal == calls_of(language, fs),
            calls@.len() == i,
            call_lists(calls@) == goal.take(i as int),
        decreases functions.len() - i,
    {
        let body_spans = capture_spans(CALL, functions[i].body.as_str());
        let ghost before = calls@;
        let found = find_calls(
            language,
            functions[i].body.as_str(),
            functions[i].body_start,
            &body_spans,
        );
        assert(fs[i as int] == function_model(functions@[i as int]));
        assert(call_models(found@) == goal[i as int]);
        calls.push(found);
        assert(call_lists(calls@) =~= goal.take(i + 1));
        i += 1;
    }
    assert(goal.take(i as int) =~= goal);
    build_graph(path, &functions, &calls)
}

// ---------------------------------------------------------------------------
// What is found
// ---------------------------------------------------------------------------

/// What a function's node carries says first whether it is asynchronous, and in Rust at its
/// end whether it is public. In Swift it says nothing.
pub proof fn law_function_metadata(g: Seq<Option<(usize, usize)>>)
    ensures
        metadata_of(SourceLanguage::Rust, g) matches Some(m) && ("{\"async\":true"@.is_prefix_of(m)
            <==> group(g, 3) is Some),
        metadata_of(SourceLanguage::Rust, g) matches Some(m) && (
        "\"visibility\":\"public\"}"@.is_suffix_of(m) <==> group(g, 2) is Some),
        metadata_of(SourceLanguage::Rust, g) matches Some(m) && (
        "\"visibility\":\"private\"}"@.is_suffix_of(m) <==> group(g, 2) is None),
        metadata_of(SourceLanguage::Python, g) == (if group(g, 2) is Some {
            Some("{\"async\":true}"@)
        } else {
            Some("{\"async\":false}"@)
        }),
        metadata_of(SourceLanguage::Swift, g) is None,
{
    reveal_strlit("{\"async\":true,\"visibility\":\"public\"}");
    reveal_strlit("{\"async\":true,\"visibility\":\"private\"}");
    reveal_strlit("{\"async\":false,\"visibility\":\"public\"}");
    reveal_strlit("{\"async\":false,\"visibility\":\"private\"}");
    reveal_strlit("{\"async\":true");
    reveal_strlit("\"visibility\":\"public\"}");
    reveal_strlit("\"visibility\":\"private\"}");
    let m = metadata_of(SourceLanguage::Rust, g)->0;
    let n = m.len() as int;
    let yes = "{\"async\":true"@;
    let public = "\"visibility\":\"public\"}"@;
    let private = "\"visibility\":\"private\"}"@;
    if group(g, 3) is Some {
        assert(yes =~= m.subrange(0, yes.len() as int));
    } else {
        assert(m[9] == 'f' && yes[9] == 't' && m.subrange(0, yes.len() as int)[9] == m[9]);
    }
    if group(g, 2) is Some {
        assert(public =~= m.subrange(n - public.len(), n));
        assert(m[n - 3] == 'c' && private[private.len() - 3] == 'e' && m.subrange(
            n - private.len(),
            n,
        )[private.len() - 3] == m[n - 3]);
    } else {
        assert(private =~= m.subrange(n - private.len(), n));
        assert(m[n - 3] == 'e' && public[public.len() - 3] == 'c' && m.subrange(
            n - public.len(),
            n,
        )[public.len() - 3] == m[n - 3]);
    }
}

/// A function begins where its match begins and has the name that the match gives. Its
/// signature is that name with the parameters in brackets behind the language's word for
/// a function, and its body is the text between the two places that are told, which lies
/// behind the match.
pub proof fn law_function_found(
    language: SourceLanguage,
    s: Seq<char>,
    g: Seq<Option<(usize, usize)>>,
)
    ensures
        function_at(language, s, g) matches Some(f) ==> {
            let k = match language {
                SourceLanguage::Rust => 4int,
                _ => 3int,
            };
            let word = match language {
                SourceLanguage::Rust => "fn "@,
                SourceLanguage::Python => "def "@,
                SourceLanguage::Swift => "func "@,
            };
            &&& group(g, 0) is Some
            &&& f.start == (group(g, 0)->0).0
            &&& f.name == group_text(s, g, k)
            &&& f.signature == word + f.name + "("@ + trimmed(group_text(s, g, k + 1)) + ")"@
            &&& exists|from: int, to: int|
                f.body == #[trigger] s.subrange(from, to) && f.body_start == utf8_size(
                    s.take(from),
                ) as usize && f.body_end == utf8_size(s.take(to)) as usize
            &&& f.metadata == metadata_of(language, g)
        },
{
    if let Some(f) = function_at(language, s, g) {
        let (start, end) = group(g, 0)->0;
        let (from, to) = body_of(
            language,
            s,
            char_index(s, end),
            utf8_size(group_text(s, g, 1)),
        )->0;
        assert(f.body == s.subrange(from, to));
    }
}

/// The functions are those of the matches, in their order; a match without a body gives
/// none.
pub proof fn law_functions_found(
    language: SourceLanguage,
    s: Seq<char>,
    front: Seq<Seq<Option<(usize, usize)>>>,
    spans: Seq<Option<(usize, usize)>>,
    back: Seq<Seq<Option<(usize, usize)>>>,
)
    ensures
        functions_at(language, s, front + seq![spans] + back) == functions_at(language, s, front) + (
        match function_at(language, s, spans) {
            Some(f) => seq![f],
            None => Seq::empty(),
        }) + functions_at(language, s, back),
        functions_at(language, s, Seq::empty()).len() == 0,
    decreases back.len(),
{
    let all = front + seq![spans] + back;
    let found = match function_at(language, s, spans) {
        Some(f) => seq![f],
        None => Seq::empty(),
    };
    if back.len() == 0 {
        assert(all.drop_last() =~= front);
        assert(all.last() == spans);
        assert(functions_at(language, s, all) =~= functions_at(language, s, front) + found
            + functions_at(language, s, back));
    } else {
        law_functions_found(language, s, front, spans, back.drop_last());
        assert(all.drop_last() =~= front + seq![spans] + back.drop_last());
        assert(all.last() == back.last());
        assert(functions_at(language, s, all) =~= functions_at(language, s, front) + found
            + functions_at(language, s, back));
    }
}

/// The calls of a body are the names that the matches give, in their order, each with its
/// place in the file, without the words of the language that are no names.
pub proof fn law_calls_found(
    language: SourceLanguage,
    body: Seq<char>,
    offset: usize,
    front: Seq<Seq<Option<(usize, usize)>>>,
    spans: Seq<Option<(usize, usize)>>,
    back: Seq<Seq<Option<(usize, usize)>>>,
)
    ensures
        calls_at(language, body, offset, front + seq![spans] + back) == calls_at(
            language,
            body,
            offset,
            front,
        ) + (match group(spans, 1) {
            Some((start, end)) => if forbidden_names(language).contains(piece(body, start, end)) {
                Seq::empty()
            } else {
                seq![(piece(body, start, end), (offset + start) as usize)]
            },
            None => Seq::empty(),
        }) + calls_at(language, body, offset, back),
        calls_at(language, body, offset, Seq::empty()).len() == 0,
    decreases back.len(),
{
    let all = front + seq![spans] + back;
    let found = match group(spans, 1) {
        Some((start, end)) => if forbidden_names(language).contains(piece(body, start, end)) {
            Seq::empty()
        } else {
            seq![(piece(body, start, end), (offset + start) as usize)]
        },
        None => Seq::empty(),
    };
    if back.len() == 0 {
        assert(all.drop_last() =~= front);
        assert(all.last() == spans);
        assert(calls_at(language, body, offset, all) =~= calls_at(language, body, offset, front)
            + found + calls_at(language, body, offset, back));
    } else {
        law_calls_found(language, body, offset, front, spans, back.drop_last());
        assert(all.drop_last() =~= front + seq![spans] + back.drop_last());
        assert(all.last() == back.last());
        assert(calls_at(language, body, offset, all) =~= calls_at(language, body, offset, front)
            + found + calls_at(language, body, offset, back));
    }
}

/// The words with which a language steers what is run next are never taken for calls.
pub proof fn law_no_keyword_called(
    language: SourceLanguage,
    body: Seq<char>,
    offset: usize,
    spans: Seq<Seq<Option<(usize, usize)>>>,
    k: int,
)
    requires
        0 <= k < calls_at(language, body, offset, spans).len(),
    ensures
        ({
            let name = calls_at(language, body, offset, spans)[k].0;
            &&& name != "if"@ && name != "for"@ && name != "while"@ && name != "return"@
            &&& language == SourceLanguage::Rust ==> name != "match"@ && name != "loop"@ && name
                != "println"@ && name != "format"@
            &&& language == SourceLanguage::Python ==> name != "elif"@ && name != "else"@ && name
                != "with"@ && name != "class"@ && name != "await"@
            &&& language == SourceLanguage::Swift ==> name != "switch"@ && name != "catch"@ && name
                != "guard"@ && name != "init"@ && name != "deinit"@
        }),
    decreases spans.len(),
{
    let before = calls_at(language, body, offset, spans.drop_last());
    let all = calls_at(language, body, offset, spans);
    if k < before.len() {
        law_no_keyword_called(language, body, offset, spans.drop_last(), k);
        assert(all[k] == before[k]);
    } else {
        let words = forbidden_names(language);
        assert(!words.contains(all[k].0));
        match language {
            SourceLanguage::Rust => {
                assert(words[0] == "if"@ && words[1] == "match"@ && words[2] == "while"@ && words[3]
                    == "loop"@ && words[4] == "for"@ && words[5] == "return"@ && words[6]
                    == "println"@ && words[7] == "format"@);
            },
            SourceLanguage::Python => {
                assert(words[0] == "if"@ && words[1] == "for"@ && words[2] == "while"@ && words[3]
                    == "return"@ && words[4] == "elif"@ && words[5] == "else"@ && words[6]
                    == "with"@ && words[7] == "class"@ && words[8] == "await"@);
            },
            SourceLanguage::Swift => {
                assert(words[0] == "if"@ && words[1] == "for"@ && words[2] == "while"@ && words[3]
                    == "switch"@ && words[4] == "catch"@ && words[5] == "guard"@ && words[6]
                    == "return"@ && words[7] == "init"@ && words[8] == "deinit"@);
            },
        }
    }
}

} // verus!
