//! The text of matches: what kind of snippet it is, its language, its context, and how
//! it is cut short.

use vstd::prelude::*;
use vstd::slice::slice_subrange;
use crate::bundle_graph::text_of;
use crate::pieces::{
    begins_with, contains, contains_string, contains_text, extension, extension_of, join, joined,
    lines, lines_of, split_whitespace, starts_with, str_contains, texts, words_of,
};
use crate::search::Classification;
use crate::text::{
    chars_of, lowercase, same_text, string_of, to_lowercase, trim_start, trim_str, trimmed,
    trimmed_start,
};

verus! {

/// The line is a comment, by the mark that it begins with.
pub open spec fn comment_line(line: Seq<char>) -> bool {
    let t = trimmed_start(line);
    begins_with(t, "//"@) || begins_with(t, "#"@) || begins_with(t, "/*"@) || begins_with(t, "*"@)
        || begins_with(t, "<!--"@)
}

/// Whether the line is a comment.
pub fn is_comment_line(line: &str) -> (r: bool)
    ensures
        r == comment_line(line@),
{
    let v = chars_of(line);
    let t = trim_start(v.as_slice());
    starts_with(t, "//") || starts_with(t, "#") || starts_with(t, "/*") || starts_with(t, "*")
        || starts_with(t, "<!--")
}

/// The text is a Swift initializer.
pub open spec fn swift_initializer(t: Seq<char>) -> bool {
    begins_with(t, "init("@) || begins_with(t, "init "@) || contains_text(t, " init("@)
        || contains_text(t, " init?("@) || contains_text(t, " init!("@) || contains_text(
        t,
        " convenience init"@,
    ) || contains_text(t, " required init"@)
}

/// The text is a Swift deinitializer.
pub open spec fn swift_deinitializer(t: Seq<char>) -> bool {
    begins_with(t, "deinit"@) || begins_with(t, "deinit "@) || contains_text(t, " deinit"@)
}

/// What a snippet is: a comment where every line is one, a function where it holds a
/// mark of one, else code.
pub open spec fn class_of(snippet: Seq<char>) -> Classification {
    let t = trimmed(snippet);
    if t.len() == 0 {
        Classification::Code
    } else if lines_of(t).len() > 0 && (forall|i: int|
        0 <= i < lines_of(t).len() ==> comment_line(#[trigger] lines_of(t)[i])) {
        Classification::Comment
    } else if contains_text(t, "class "@) || contains_text(t, "def "@) || contains_text(t, "fn "@)
        || contains_text(t, "function "@) || contains_text(t, "=>"@) || words_of(t).contains(
        "func"@,
    ) || swift_initializer(t) || swift_deinitializer(t) {
        Classification::Function
    } else {
        Classification::Code
    }
}

/// What a snippet is.
pub fn classify_snippet(snippet: &str) -> (r: Classification)
    ensures
        r == class_of(snippet@),
{
    let trimmed_text = trim_str(snippet);
    let s = trimmed_text.as_str();
    if s.is_empty() {
        return Classification::Code;
    }
    let v = chars_of(s);
    let ls = lines(v.as_slice());
    let mut all_comments = ls.len() > 0;
    let mut i: usize = 0;
    assert(texts(ls@).len() == ls@.len());
    while i < ls.len()
        invariant
            i <= ls.len(),
            texts(ls@) == lines_of(s@),
            all_comments ==> ls@.len() > 0,
            all_comments == (ls@.len() > 0 && forall|k: int|
                0 <= k < i ==> comment_line(#[trigger] lines_of(s@)[k])),
        decreases ls.len() - i,
    {
        assert(lines_of(s@)[i as int] == ls@[i as int]@);
        if !is_comment_line(ls[i].as_str()) {
            all_comments = false;
        }
        i += 1;
    }
    if all_comments {
        return Classification::Comment;
    }
    let words = split_whitespace(v.as_slice());
    let func_token = contains_string(&words, "func");
    let initializer = starts_with(v.as_slice(), "init(") || starts_with(v.as_slice(), "init ")
        || str_contains(s, " init(") || str_contains(s, " init?(") || str_contains(s, " init!(")
        || str_contains(s, " convenience init") || str_contains(s, " required init");
    let deinitializer = starts_with(v.as_slice(), "deinit") || starts_with(v.as_slice(), "deinit ")
        || str_contains(s, " deinit");
    if str_contains(s, "class ") || str_contains(s, "def ") || str_contains(s, "fn ")
        || str_contains(s, "function ") || str_contains(s, "=>") || func_token || initializer
        || deinitializer {
        Classification::Function
    } else {
        Classification::Code
    }
}

/// The language that a lower-case extension stands for.
pub open spec fn language_of(ext: Seq<char>) -> Option<Seq<char>> {
    if ext == "ts"@ || ext == "tsx"@ {
        Some("TypeScript"@)
    } else if ext == "js"@ || ext == "jsx"@ || ext == "mjs"@ || ext == "cjs"@ {
        Some("JavaScript"@)
    } else if ext == "json"@ {
        Some("JSON"@)
    } else if ext == "py"@ {
        Some("Python"@)
    } else if ext == "rs"@ {
        Some("Rust"@)
    } else if ext == "go"@ {
        Some("Go"@)
    } else if ext == "java"@ {
        Some("Java"@)
    } else if ext == "rb"@ {
        Some("Ruby"@)
    } else if ext == "php"@ {
        Some("PHP"@)
    } else if ext == "swift"@ {
        Some("Swift"@)
    } else if ext == "kt"@ {
        Some("Kotlin"@)
    } else if ext == "cs"@ {
        Some("C#"@)
    } else if ext == "cpp"@ || ext == "cc"@ {
        Some("C++"@)
    } else if ext == "c"@ {
        Some("C"@)
    } else if ext == "h"@ {
        Some("C/C++ Header"@)
    } else if ext == "hpp"@ {
        Some("C++ Header"@)
    } else if ext == "md"@ {
        Some("Markdown"@)
    } else if ext == "yml"@ || ext == "yaml"@ {
        Some("YAML"@)
    } else {
        None
    }
}

/// The language that a lower-case extension stands for.
pub fn language_for_extension(ext: &str) -> (r: Option<String>)
    ensures
        text_of(r) == language_of(ext@),
{
    if same_text(ext, "ts") || same_text(ext, "tsx") {
        Some("TypeScript".to_owned())
    } else if same_text(ext, "js") || same_text(ext, "jsx") || same_text(ext, "mjs") || same_text(
        ext,
        "cjs",
    ) {
        Some("JavaScript".to_owned())
    } else if same_text(ext, "json") {
        Some("JSON".to_owned())
    } else if same_text(ext, "py") {
        Some("Python".to_owned())
    } else if same_text(ext, "rs") {
        Some("Rust".to_owned())
    } else if same_text(ext, "go") {
        Some("Go".to_owned())
    } else if same_text(ext, "java") {
        Some("Java".to_owned())
    } else if same_text(ext, "rb") {
        Some("Ruby".to_owned())
    } else if same_text(ext, "php") {
        Some("PHP".to_owned())
    } else if same_text(ext, "swift") {
        Some("Swift".to_owned())
    } else if same_text(ext, "kt") {
        Some("Kotlin".to_owned())
    } else if same_text(ext, "cs") {
        Some("C#".to_owned())
    } else if same_text(ext, "cpp") || same_text(ext, "cc") {
        Some("C++".to_owned())
    } else if same_text(ext, "c") {
        Some("C".to_owned())
    } else if same_text(ext, "h") {
        Some("C/C++ Header".to_owned())
    } else if same_text(ext, "hpp") {
        Some("C++ Header".to_owned())
    } else if same_text(ext, "md") {
        Some("Markdown".to_owned())
    } else if same_text(ext, "yml") || same_text(ext, "yaml") {
        Some("YAML".to_owned())
    } else {
        None
    }
}

/// The language of a file, by its extension in lower case.
pub open spec fn path_language(path: Seq<char>) -> Option<Seq<char>> {
    match extension_of(path) {
        Some(e) => language_of(lowercase(e)),
        None => language_of(lowercase(Seq::empty())),
    }
}

/// The language of a file, by its extension in lower case.
pub fn detect_language(path: &str) -> (r: Option<String>)
    ensures
        text_of(r) == path_language(path@),
{
    let ext = match extension(path) {
        Some(e) => e,
        None => String::new(),
    };
    let lower = to_lowercase(ext.as_str());
    language_for_extension(lower.as_str())
}

/// `text` where it has at most `max` characters, else its first ones and an ellipsis,
/// `max` characters in all.
pub open spec fn ellipsized(text: Seq<char>, max: int) -> Seq<char> {
    if text.len() <= max {
        text
    } else {
        text.take(
            if max > 0 {
                max - 1
            } else {
                0
            },
        ).push('…')
    }
}

/// The text cut to at most `max_chars` characters.
pub fn trim_with_ellipsis(text: &str, max_chars: usize) -> (r: String)
    ensures
        r@ == ellipsized(text@, max_chars as int),
        max_chars > 0 ==> r@.len() <= max_chars,
{
    let v = chars_of(text);
    if v.len() <= max_chars {
        return string_of(v.as_slice());
    }
    let keep: usize = if max_chars > 0 {
        max_chars - 1
    } else {
        0
    };
    let cut = slice_subrange(v.as_slice(), 0, keep);
    assert(cut@ =~= text@.take(keep as int));
    let mut out = string_of(cut);
    out.push('…');
    out
}

/// Cutting a text that was cut before changes nothing.
pub proof fn law_ellipsis_twice(text: Seq<char>, max: int)
    requires
        max > 0,
    ensures
        ellipsized(ellipsized(text, max), max) == ellipsized(text, max),
{
}

/// The lines from position `a` up to position `b`, joined, where there are any.
pub open spec fn lines_between(ls: Seq<Seq<char>>, a: int, b: int) -> Option<Seq<char>> {
    let lo = if a < 0 {
        0
    } else {
        a
    };
    let hi = if b > ls.len() {
        ls.len() as int
    } else {
        b
    };
    if lo < hi {
        Some(joined(ls.subrange(lo, hi), "\n"@))
    } else {
        None
    }
}

/// The lines from position `a` up to position `b`, joined.
fn join_lines(ls: &Vec<String>, a: usize, b: usize) -> (r: Option<String>)
    ensures
        text_of(r) == lines_between(texts(ls@), a as int, b as int),
{
    let hi: usize = if b > ls.len() {
        ls.len()
    } else {
        b
    };
    if a < hi {
        let part = slice_subrange(ls.as_slice(), a, hi);
        assert(texts(part@) =~= texts(ls@).subrange(a as int, hi as int));
        Some(join(part, "\n"))
    } else {
        None
    }
}

/// The first line of a match, counted from one; the first of the file where it is
/// unknown.
pub open spec fn match_start(line_start: Option<i64>) -> int {
    match line_start {
        Some(v) => if v < 1 {
            1
        } else {
            v as int
        },
        None => 1,
    }
}

/// The position behind the last line of a match. A negative last line counts as behind
/// the file.
pub open spec fn match_end(line_start: Option<i64>, line_end: Option<i64>, count: int) -> int {
    match line_end {
        Some(v) => if v < 0 {
            count
        } else if v < 1 {
            1
        } else {
            v as int
        },
        None => match_start(line_start),
    }
}

/// The lines in front of a match and those behind it.
pub open spec fn context_of(
    ls: Option<Seq<Seq<char>>>,
    line_start: Option<i64>,
    line_end: Option<i64>,
    before: int,
    after: int,
) -> (Option<Seq<char>>, Option<Seq<char>>) {
    match ls {
        Some(all) => {
            let first = match_start(line_start) - 1;
            let behind = match_end(line_start, line_end, all.len() as int);
            (
                lines_between(all, first - before, first),
                lines_between(all, behind, behind + after),
            )
        },
        None => (None, None),
    }
}

/// The views of optional lines.
pub open spec fn opt_lines(ls: Option<&Vec<String>>) -> Option<Seq<Seq<char>>> {
    match ls {
        Some(v) => Some(texts(v@)),
        None => None,
    }
}

/// The lines in front of a match and those behind it.
pub fn extract_context(
    lines: Option<&Vec<String>>,
    line_start: Option<i64>,
    line_end: Option<i64>,
    before_padding: usize,
    after_padding: usize,
) -> (r: (Option<String>, Option<String>))
    ensures
        (text_of(r.0), text_of(r.1)) == context_of(
            opt_lines(lines),
            line_start,
            line_end,
            before_padding as int,
            after_padding as int,
        ),
{
    let ls = match lines {
        Some(v) => v,
        None => return (None, None),
    };
    let count: usize = ls.len();
    assert(texts(ls@).len() == count);
    let start: u64 = match line_start {
        Some(v) => if v < 1 {
            1
        } else {
            v as u64
        },
        None => 1,
    };
    let first: u64 = start - 1;
    let begin: u64 = if first > before_padding as u64 {
        first - before_padding as u64
    } else {
        0
    };
    let before = if begin >= count as u64 {
        None
    } else {
        let stop: usize = if first > count as u64 {
            count
        } else {
            first as usize
        };
        join_lines(ls, begin as usize, stop)
    };
    let behind: u64 = match line_end {
        Some(v) => if v < 0 {
            count as u64
        } else if v < 1 {
            1
        } else {
            v as u64
        },
        None => start,
    };
    let after = if behind >= count as u64 {
        None
    } else {
        let from: usize = behind as usize;
        let stop: usize = if after_padding > count - from {
            count
        } else {
            from + after_padding
        };
        join_lines(ls, from, stop)
    };
    (before, after)
}

/// The lines of a match, joined, where the file has its first line.
pub open spec fn focus_of(
    ls: Option<Seq<Seq<char>>>,
    line_start: Option<i64>,
    line_end: Option<i64>,
) -> Option<Seq<char>> {
    match ls {
        Some(all) => {
            let first = match_start(line_start);
            let last = match line_end {
                Some(v) => v as int,
                None => match line_start {
                    Some(v) => v as int,
                    None => 0,
                },
            };
            if first > all.len() {
                None
            } else {
                lines_between(
                    all,
                    first - 1,
                    if last < first {
                        first
                    } else {
                        last
                    },
                )
            }
        },
        None => None,
    }
}

/// The lines of a match, joined, where the file has its first line.
pub fn extract_focus_span(
    lines: Option<&Vec<String>>,
    line_start: Option<i64>,
    line_end: Option<i64>,
) -> (r: Option<String>)
    ensures
        text_of(r) == focus_of(opt_lines(lines), line_start, line_end),
{
    let ls = match lines {
        Some(v) => v,
        None => return None,
    };
    let count: usize = ls.len();
    assert(texts(ls@).len() == count);
    let first: u64 = match line_start {
        Some(v) => if v < 1 {
            1
        } else {
            v as u64
        },
        None => 1,
    };
    if first > count as u64 {
        return None;
    }
    let last_raw: i64 = match line_end {
        Some(v) => v,
        None => match line_start {
            Some(v) => v,
            None => 0,
        },
    };
    let last: u64 = if last_raw < 0 || (last_raw as u64) < first {
        first
    } else {
        last_raw as u64
    };
    let stop: usize = if last > count as u64 {
        count
    } else {
        last as usize
    };
    join_lines(ls, (first - 1) as usize, stop)
}

/// Every known extension stands for its language.
pub proof fn law_languages()
    ensures
        language_of("ts"@) == Some("TypeScript"@),
        language_of("tsx"@) == Some("TypeScript"@),
        language_of("js"@) == Some("JavaScript"@),
        language_of("jsx"@) == Some("JavaScript"@),
        language_of("mjs"@) == Some("JavaScript"@),
        language_of("cjs"@) == Some("JavaScript"@),
        language_of("json"@) == Some("JSON"@),
        language_of("py"@) == Some("Python"@),
        language_of("rs"@) == Some("Rust"@),
        language_of("go"@) == Some("Go"@),
        language_of("java"@) == Some("Java"@),
        language_of("rb"@) == Some("Ruby"@),
        language_of("php"@) == Some("PHP"@),
        language_of("swift"@) == Some("Swift"@),
        language_of("kt"@) == Some("Kotlin"@),
        language_of("cs"@) == Some("C#"@),
        language_of("cpp"@) == Some("C++"@),
        language_of("cc"@) == Some("C++"@),
        language_of("c"@) == Some("C"@),
        language_of("h"@) == Some("C/C++ Header"@),
        language_of("hpp"@) == Some("C++ Header"@),
        language_of("md"@) == Some("Markdown"@),
        language_of("yml"@) == Some("YAML"@),
        language_of("yaml"@) == Some("YAML"@),
{
    reveal_strlit("ts");
    reveal_strlit("tsx");
    reveal_strlit("js");
    reveal_strlit("jsx");
    reveal_strlit("mjs");
    reveal_strlit("cjs");
    reveal_strlit("json");
    reveal_strlit("py");
    reveal_strlit("rs");
    reveal_strlit("go");
    reveal_strlit("java");
    reveal_strlit("rb");
    reveal_strlit("php");
    reveal_strlit("swift");
    reveal_strlit("kt");
    reveal_strlit("cs");
    reveal_strlit("cpp");
    reveal_strlit("cc");
    reveal_strlit("c");
    reveal_strlit("h");
    reveal_strlit("hpp");
    reveal_strlit("md");
    reveal_strlit("yml");
    reveal_strlit("yaml");
    assert("ts"@[0] != "js"@[0]);
    assert("ts"@[0] != "py"@[0]);
    assert("ts"@[0] != "rs"@[0]);
    assert("ts"@[0] != "go"@[0]);
    assert("ts"@[0] != "rb"@[0]);
    assert("ts"@[0] != "kt"@[0]);
    assert("ts"@[0] != "cs"@[0]);
    assert("ts"@[0] != "cc"@[0]);
    assert("ts"@[0] != "md"@[0]);
    assert("tsx"@[0] != "jsx"@[0]);
    assert("tsx"@[0] != "mjs"@[0]);
    assert("tsx"@[0] != "cjs"@[0]);
    assert("tsx"@[0] != "php"@[0]);
    assert("tsx"@[0] != "cpp"@[0]);
    assert("tsx"@[0] != "hpp"@[0]);
    assert("tsx"@[0] != "yml"@[0]);
    assert("js"@[0] != "py"@[0]);
    assert("js"@[0] != "rs"@[0]);
    assert("js"@[0] != "go"@[0]);
    assert("js"@[0] != "rb"@[0]);
    assert("js"@[0] != "kt"@[0]);
    assert("js"@[0] != "cs"@[0]);
    assert("js"@[0] != "cc"@[0]);
    assert("js"@[0] != "md"@[0]);
    assert("jsx"@[0] != "mjs"@[0]);
    assert("jsx"@[0] != "cjs"@[0]);
    assert("jsx"@[0] != "php"@[0]);
    assert("jsx"@[0] != "cpp"@[0]);
    assert("jsx"@[0] != "hpp"@[0]);
    assert("jsx"@[0] != "yml"@[0]);
    assert("mjs"@[0] != "cjs"@[0]);
    assert("mjs"@[0] != "php"@[0]);
    assert("mjs"@[0] != "cpp"@[0]);
    assert("mjs"@[0] != "hpp"@[0]);
    assert("mjs"@[0] != "yml"@[0]);
    assert("cjs"@[0] != "php"@[0]);
    assert("cjs"@[1] != "cpp"@[1]);
    assert("cjs"@[0] != "hpp"@[0]);
    assert("cjs"@[0] != "yml"@[0]);
    assert("json"@[1] != "java"@[1]);
    assert("json"@[0] != "yaml"@[0]);
    assert("py"@[0] != "rs"@[0]);
    assert("py"@[0] != "go"@[0]);
    assert("py"@[0] != "rb"@[0]);
    assert("py"@[0] != "kt"@[0]);
    assert("py"@[0] != "cs"@[0]);
    assert("py"@[0] != "cc"@[0]);
    assert("py"@[0] != "md"@[0]);
    assert("rs"@[0] != "go"@[0]);
    assert("rs"@[1] != "rb"@[1]);
    assert("rs"@[0] != "kt"@[0]);
    assert("rs"@[0] != "cs"@[0]);
    assert("rs"@[0] != "cc"@[0]);
    assert("rs"@[0] != "md"@[0]);
    assert("go"@[0] != "rb"@[0]);
    assert("go"@[0] != "kt"@[0]);
    assert("go"@[0] != "cs"@[0]);
    assert("go"@[0] != "cc"@[0]);
    assert("go"@[0] != "md"@[0]);
    assert("java"@[0] != "yaml"@[0]);
    assert("rb"@[0] != "kt"@[0]);
    assert("rb"@[0] != "cs"@[0]);
    assert("rb"@[0] != "cc"@[0]);
    assert("rb"@[0] != "md"@[0]);
    assert("php"@[0] != "cpp"@[0]);
    assert("php"@[0] != "hpp"@[0]);
    assert("php"@[0] != "yml"@[0]);
    assert("kt"@[0] != "cs"@[0]);
    assert("kt"@[0] != "cc"@[0]);
    assert("kt"@[0] != "md"@[0]);
    assert("cs"@[1] != "cc"@[1]);
    assert("cs"@[0] != "md"@[0]);
    assert("cpp"@[0] != "hpp"@[0]);
    assert("cpp"@[0] != "yml"@[0]);
    assert("cc"@[0] != "md"@[0]);
    assert("c"@[0] != "h"@[0]);
    assert("hpp"@[0] != "yml"@[0]);
    assert("ts"@.len() == 2);
    assert("tsx"@.len() == 3);
    assert("js"@.len() == 2);
    assert("jsx"@.len() == 3);
    assert("mjs"@.len() == 3);
    assert("cjs"@.len() == 3);
    assert("json"@.len() == 4);
    assert("py"@.len() == 2);
    assert("rs"@.len() == 2);
    assert("go"@.len() == 2);
    assert("java"@.len() == 4);
    assert("rb"@.len() == 2);
    assert("php"@.len() == 3);
    assert("swift"@.len() == 5);
    assert("kt"@.len() == 2);
    assert("cs"@.len() == 2);
    assert("cpp"@.len() == 3);
    assert("cc"@.len() == 2);
    assert("c"@.len() == 1);
    assert("h"@.len() == 1);
    assert("hpp"@.len() == 3);
    assert("md"@.len() == 2);
    assert("yml"@.len() == 3);
    assert("yaml"@.len() == 4);
}

/// The line is a comment exactly where the first thing on it is the mark of one.
pub proof fn law_comment_line(line: Seq<char>)
    ensures
        comment_line(line) <==> "//"@.is_prefix_of(trimmed_start(line)) || "#"@.is_prefix_of(
            trimmed_start(line),
        ) || "/*"@.is_prefix_of(trimmed_start(line)) || "*"@.is_prefix_of(trimmed_start(line))
            || "<!--"@.is_prefix_of(trimmed_start(line)),
{
    let t = trimmed_start(line);
    crate::pieces::law_occurrence(t, "//"@);
    crate::pieces::law_occurrence(t, "#"@);
    crate::pieces::law_occurrence(t, "/*"@);
    crate::pieces::law_occurrence(t, "*"@);
    crate::pieces::law_occurrence(t, "<!--"@);
}

/// A snippet is a comment exactly where something is on it and every line of it is one. Of
/// the others those with a mark of a function or a class are functions, and only those.
pub proof fn law_class(snippet: Seq<char>)
    ensures
        ({
            let t = trimmed(snippet);
            let marked = contains_text(t, "class "@) || contains_text(t, "def "@) || contains_text(
                t,
                "fn "@,
            ) || contains_text(t, "function "@) || contains_text(t, "=>"@) || words_of(t).contains(
                "func"@,
            ) || begins_with(t, "init("@) || begins_with(t, "init "@) || contains_text(
                t,
                " init("@,
            ) || contains_text(t, " init?("@) || contains_text(t, " init!("@) || contains_text(
                t,
                " convenience init"@,
            ) || contains_text(t, " required init"@) || begins_with(t, "deinit"@) || contains_text(
                t,
                " deinit"@,
            );
            let comment = t.len() > 0 && lines_of(t).len() > 0 && forall|i: int|
                0 <= i < lines_of(t).len() ==> comment_line(#[trigger] lines_of(t)[i]);
            &&& class_of(snippet) == Classification::Comment <==> comment
            &&& class_of(snippet) == Classification::Function <==> t.len() > 0 && !comment && marked
            &&& class_of(snippet) == Classification::Code <==> t.len() == 0 || (!comment && !marked)
        }),
{
    let t = trimmed(snippet);
    reveal_strlit("deinit");
    reveal_strlit("deinit ");
    if begins_with(t, "deinit "@) {
        assert(t.subrange(0, 6) =~= t.subrange(0, 7).subrange(0, 6));
        assert("deinit "@.subrange(0, 6) =~= "deinit"@);
        assert(t.subrange(0, 0int + "deinit"@.len()) == "deinit"@);
        assert(begins_with(t, "deinit"@));
    }
}

/// A short text stays as it is. Of a longer one the beginning is shown, with an ellipsis
/// behind it, and together they have the length that is allowed.
pub proof fn law_ellipsis(text: Seq<char>, max: int)
    requires
        max > 0,
    ensures
        text.len() <= max ==> ellipsized(text, max) == text,
        text.len() > max ==> ellipsized(text, max).len() == max && ellipsized(text, max).last()
            == '…' && ellipsized(text, max).drop_last().is_prefix_of(text),
{
    if text.len() > max {
        assert(ellipsized(text, max).drop_last() =~= text.take(max - 1));
        assert(text.take(max - 1) =~= text.subrange(0, max - 1));
    }
}

/// The context of a match whose lines the file has: the wanted number of lines right in
/// front of its first line and right behind its last, as far as there are any.
pub proof fn law_context(
    ls: Seq<Seq<char>>,
    start: i64,
    end: i64,
    before: int,
    after: int,
)
    requires
        1 <= start <= end <= ls.len(),
        before >= 0,
        after >= 0,
    ensures
        ({
            let (front, back) = context_of(Some(ls), Some(start), Some(end), before, after);
            let first = if start - 1 < before {
                0
            } else {
                start - 1 - before
            };
            let last = if ls.len() - end < after {
                ls.len() as int
            } else {
                end + after
            };
            &&& front is None <==> before == 0 || start == 1
            &&& back is None <==> after == 0 || end == ls.len()
            &&& front matches Some(t) ==> t == joined(ls.subrange(first, start - 1), "\n"@)
            &&& back matches Some(t) ==> t == joined(ls.subrange(end as int, last), "\n"@)
        }),
        context_of(None, Some(start), Some(end), before, after) == (None::<Seq<char>>, None::<
            Seq<char>,
        >),
{
}

/// The lines of a match are those from its first to its last, and both belong to it; of a
/// match that goes on behind the file, those that the file has.
pub proof fn law_focus_span(ls: Seq<Seq<char>>, start: i64, end: i64)
    requires
        1 <= start <= end,
    ensures
        start > ls.len() ==> focus_of(Some(ls), Some(start), Some(end)) is None,
        end <= ls.len() ==> focus_of(Some(ls), Some(start), Some(end)) == Some(
            joined(ls.subrange(start - 1, end as int), "\n"@),
        ),
        start <= ls.len() < end ==> focus_of(Some(ls), Some(start), Some(end)) == Some(
            joined(ls.subrange(start - 1, ls.len() as int), "\n"@),
        ),
        start <= ls.len() ==> focus_of(Some(ls), Some(start), None) == Some(
            joined(ls.subrange(start - 1, start as int), "\n"@),
        ),
        focus_of(None, Some(start), Some(end)) is None,
{
}

/// Lines that are not known, or lie before the file, count as its first one, and a last line
/// below zero as the end of the file.
pub proof fn law_unusual_lines(
    ls: Seq<Seq<char>>,
    start: i64,
    end: i64,
    before: int,
    after: int,
)
    requires
        before >= 0,
        after >= 0,
    ensures
        start < 1 ==> context_of(Some(ls), Some(start), Some(end), before, after) == context_of(
            Some(ls),
            Some(1i64),
            Some(end),
            before,
            after,
        ),
        context_of(Some(ls), None, Some(end), before, after) == context_of(
            Some(ls),
            Some(1i64),
            Some(end),
            before,
            after,
        ),
        context_of(Some(ls), Some(start), Some(0i64), before, after) == context_of(
            Some(ls),
            Some(start),
            Some(1i64),
            before,
            after,
        ),
        start >= 1 ==> context_of(Some(ls), Some(start), None, before, after) == context_of(
            Some(ls),
            Some(start),
            Some(start),
            before,
            after,
        ),
        end < 0 ==> context_of(Some(ls), Some(start), Some(end), before, after).1 is None,
{
}

} // verus!
