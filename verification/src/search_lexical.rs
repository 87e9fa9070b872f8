//! Lexical search: which lookups are made for a query, and which chunks pass.

use vstd::prelude::*;
use vstd::slice::slice_subrange;
use crate::bundle_graph::{keep_metadata, text_of, valid_metadata};
use crate::pieces::{
    begins_with, contains_string, contains_text, occurs_at, push_text, str_contains, str_starts_with, texts,
};
use crate::score::{score_key, Score};
use crate::search::{ChunkRow, Classification, PendingMatch, SearchSource};
use crate::search_query::{identifier_like, is_identifier_query};
use crate::search_text::{class_of, classify_snippet, detect_language, path_language};
use crate::text::{
    chars_of, is_white_space, lemma_trimmed, lowercase, same_text, string_of, to_lowercase, trim,
    trimmed,
};

verus! {

// ---------------------------------------------------------------------------
// Patterns
// ---------------------------------------------------------------------------

/// A character that has a meaning of its own in a LIKE pattern.
pub open spec fn like_special(c: char) -> bool {
    c == '%' || c == '_' || c == '\\'
}

/// The text with a backslash in front of every special character.
pub open spec fn escaped(s: Seq<char>) -> Seq<char>
    decreases s.len(),
{
    if s.len() == 0 {
        Seq::empty()
    } else if like_special(s[0]) {
        seq!['\\', s[0]] + escaped(s.drop_first())
    } else {
        seq![s[0]] + escaped(s.drop_first())
    }
}

/// The only text that a LIKE pattern with the escape character backslash matches, where
/// the pattern holds no wildcard.
pub open spec fn like_literal(p: Seq<char>) -> Option<Seq<char>>
    decreases p.len(),
{
    if p.len() == 0 {
        Some(Seq::empty())
    } else if p[0] == '\\' {
        if p.len() < 2 {
            None
        } else {
            match like_literal(p.skip(2)) {
                Some(rest) => Some(seq![p[1]] + rest),
                None => None,
            }
        }
    } else if p[0] == '%' || p[0] == '_' {
        None
    } else {
        match like_literal(p.drop_first()) {
            Some(rest) => Some(seq![p[0]] + rest),
            None => None,
        }
    }
}

/// An escaped text, used as a pattern, matches that text and no other.
pub proof fn law_escaped_is_literal(s: Seq<char>)
    ensures
        like_literal(escaped(s)) == Some(s),
    decreases s.len(),
{
    if s.len() > 0 {
        law_escaped_is_literal(s.drop_first());
        let p = escaped(s);
        assert(s =~= seq![s[0]] + s.drop_first());
        if like_special(s[0]) {
            assert(p.skip(2) =~= escaped(s.drop_first()));
            assert(p[1] == s[0]);
        } else {
            assert(p.drop_first() =~= escaped(s.drop_first()));
        }
    } else {
        assert(s =~= Seq::<char>::empty());
    }
}

/// Two different texts have different escaped forms.
pub proof fn law_escape_injective(a: Seq<char>, b: Seq<char>)
    requires
        escaped(a) == escaped(b),
    ensures
        a == b,
{
    law_escaped_is_literal(a);
    law_escaped_is_literal(b);
}

/// The text with a backslash in front of every special character.
pub fn escape_like_pattern(input: &str) -> (r: String)
    ensures
        r@ == escaped(input@),
{
    let v = chars_of(input);
    let mut out = String::new();
    let mut i: usize = 0;
    assert(input@.skip(0) =~= input@);
    assert(Seq::<char>::empty() + escaped(input@) =~= escaped(input@));
    while i < v.len()
        invariant
            i <= v.len(),
            v@ == input@,
            out@ + escaped(input@.skip(i as int)) == escaped(input@),
        decreases v.len() - i,
    {
        let c = v[i];
        let ghost before = out@;
        let ghost rest = input@.skip(i as int);
        assert(rest.drop_first() =~= input@.skip(i + 1));
        assert(rest[0] == c);
        if c == '%' || c == '_' || c == '\\' {
            out.push('\\');
            out.push(c);
            assert(out@ + escaped(rest.drop_first()) =~= before + (seq!['\\', c] + escaped(
                rest.drop_first(),
            )));
        } else {
            out.push(c);
            assert(out@ + escaped(rest.drop_first()) =~= before + (seq![c] + escaped(
                rest.drop_first(),
            )));
        }
        i += 1;
    }
    assert(input@.skip(i as int) =~= Seq::<char>::empty());
    assert(out@ =~= escaped(input@));
    out
}

/// A pattern for the texts that hold `s`.
pub open spec fn holding(s: Seq<char>) -> Seq<char> {
    "%"@ + escaped(s) + "%"@
}

/// `s` stands in `t` at `i`, where characters are compared by `same`.
pub open spec fn stands_at(
    s: Seq<char>,
    t: Seq<char>,
    i: int,
    same: spec_fn(char, char) -> bool,
) -> bool {
    0 <= i && i + s.len() <= t.len() && forall|j: int|
        0 <= j < s.len() ==> same(#[trigger] s[j], t[i + j])
}

/// A LIKE pattern with the escape character backslash matches a text: a percent sign stands
/// for any text, an underscore for any character, and another character for those that
/// count as the same.
pub open spec fn like_matches(p: Seq<char>, t: Seq<char>, same: spec_fn(char, char) -> bool) -> bool
    decreases p.len(), t.len(),
{
    if p.len() == 0 {
        t.len() == 0
    } else if p[0] == '%' {
        like_matches(p.drop_first(), t, same) || (t.len() > 0 && like_matches(
            p,
            t.drop_first(),
            same,
        ))
    } else if p[0] == '_' {
        t.len() > 0 && like_matches(p.drop_first(), t.drop_first(), same)
    } else if p[0] == '\\' {
        p.len() > 1 && t.len() > 0 && same(p[1], t[0]) && like_matches(
            p.skip(2),
            t.drop_first(),
            same,
        )
    } else {
        t.len() > 0 && same(p[0], t[0]) && like_matches(p.drop_first(), t.drop_first(), same)
    }
}

proof fn lemma_any_text(t: Seq<char>, same: spec_fn(char, char) -> bool)
    ensures
        like_matches(seq!['%'], t, same),
    decreases t.len(),
{
    let p = seq!['%'];
    assert(p.drop_first() =~= Seq::<char>::empty());
    if t.len() > 0 {
        lemma_any_text(t.drop_first(), same);
    } else {
        assert(like_matches(p.drop_first(), t, same));
    }
}

proof fn lemma_literal_prefix(
    s: Seq<char>,
    t: Seq<char>,
    same: spec_fn(char, char) -> bool,
)
    ensures
        like_matches(escaped(s) + seq!['%'], t, same) <==> stands_at(s, t, 0, same),
    decreases s.len(),
{
    let p = escaped(s) + seq!['%'];
    if s.len() == 0 {
        assert(p =~= seq!['%']);
        lemma_any_text(t, same);
    } else {
        let rest = s.drop_first();
        if t.len() > 0 {
            let after = t.drop_first();
            lemma_literal_prefix(rest, after, same);
            if stands_at(s, t, 0, same) {
                assert(same(s[0], t[0int + 0int]));
                assert forall|j: int| 0 <= j < rest.len() implies same(
                    #[trigger] rest[j],
                    after[0 + j],
                ) by {
                    assert(same(s[j + 1], t[0 + (j + 1)]));
                }
            }
            if same(s[0], t[0]) && stands_at(rest, after, 0, same) {
                assert forall|j: int| 0 <= j < s.len() implies same(#[trigger] s[j], t[0 + j]) by {
                    if j > 0 {
                        assert(same(rest[j - 1], after[0 + (j - 1)]));
                    }
                }
            }
        }
        if like_special(s[0]) {
            assert(p.skip(2) =~= escaped(rest) + seq!['%']);
            assert(p[0] == '\\' && p[1] == s[0]);
        } else {
            assert(p.drop_first() =~= escaped(rest) + seq!['%']);
            assert(p[0] == s[0]);
        }
    }
}

/// The pattern that is made of a text matches exactly those texts in which it stands
/// somewhere, however letters are compared.
pub proof fn law_pattern_finds_text(
    s: Seq<char>,
    t: Seq<char>,
    same: spec_fn(char, char) -> bool,
)
    ensures
        like_matches(holding(s), t, same) <==> exists|i: int|
            #[trigger] stands_at(s, t, i, same),
    decreases t.len(),
{
    reveal_strlit("%");
    let p = holding(s);
    let tail = escaped(s) + seq!['%'];
    assert(p =~= seq!['%'] + tail);
    assert(p.drop_first() =~= tail);
    lemma_literal_prefix(s, t, same);
    if t.len() > 0 {
        let rest = t.drop_first();
        law_pattern_finds_text(s, rest, same);
        if exists|i: int| #[trigger] stands_at(s, rest, i, same) {
            let i = choose|i: int| #[trigger] stands_at(s, rest, i, same);
            assert forall|j: int| 0 <= j < s.len() implies same(#[trigger] s[j], t[(i + 1) + j]) by {
                assert(same(s[j], rest[i + j]));
            }
            assert(stands_at(s, t, i + 1, same));
        }
        if exists|i: int| #[trigger] stands_at(s, t, i, same) {
            let i = choose|i: int| #[trigger] stands_at(s, t, i, same);
            if i > 0 {
                assert forall|j: int| 0 <= j < s.len() implies same(
                    #[trigger] s[j],
                    rest[(i - 1) + j],
                ) by {
                    assert(same(s[j], t[i + j]));
                }
                assert(stands_at(s, rest, i - 1, same));
            }
        }
    }
}

/// A pattern for the texts that hold `s`.
pub fn like_pattern(s: &str) -> (r: String)
    ensures
        r@ == holding(s@),
{
    let mut out = "%".to_owned();
    out.append(escape_like_pattern(s).as_str());
    out.append("%");
    out
}

// ---------------------------------------------------------------------------
// The plan
// ---------------------------------------------------------------------------

/// A character that parts an identifier.
pub open spec fn identifier_separator(c: char) -> bool {
    c == ':' || c == '.' || c == '#'
}

/// The position of the last separator, or -1.
pub open spec fn last_separator(s: Seq<char>) -> int
    decreases s.len(),
{
    if s.len() == 0 {
        -1
    } else if identifier_separator(s.last()) {
        s.len() - 1
    } else {
        last_separator(s.drop_last())
    }
}

proof fn lemma_last_separator(s: Seq<char>)
    ensures
        -1 <= last_separator(s) < s.len(),
    decreases s.len(),
{
    if s.len() > 0 && !identifier_separator(s.last()) {
        lemma_last_separator(s.drop_last());
    }
}

/// The last part of an identifier that is not blank.
pub open spec fn core_of(s: Seq<char>) -> Option<Seq<char>>
    decreases s.len(),
    via core_decreases
{
    let p = last_separator(s);
    let part = trimmed(s.skip(p + 1));
    if part.len() > 0 {
        Some(part)
    } else if p < 0 {
        None
    } else {
        core_of(s.take(p))
    }
}

#[via_fn]
proof fn core_decreases(s: Seq<char>) {
    lemma_last_separator(s);
}

/// The last part of an identifier stands between two of its separators, or at one of its
/// ends, and behind it there is nothing but separators and white space.
pub proof fn law_core_is_last_part(s: Seq<char>)
    ensures
        core_of(s) matches Some(part) ==> part.len() > 0 && exists|a: int, b: int|
            {
                &&& 0 <= a <= b <= s.len()
                &&& part == trimmed(#[trigger] s.subrange(a, b))
                &&& a == 0 || s[a - 1] == ':' || s[a - 1] == '.' || s[a - 1] == '#'
                &&& forall|i: int| a <= i < b ==> s[i] != ':' && s[i] != '.' && s[i] != '#'
                &&& forall|i: int|
                    b <= i < s.len() ==> s[i] == ':' || s[i] == '.' || s[i] == '#'
                        || is_white_space(s[i])
            },
        core_of(s) is None ==> forall|i: int|
            0 <= i < s.len() ==> s[i] == ':' || s[i] == '.' || s[i] == '#' || is_white_space(s[i]),
    decreases s.len(),
{
    lemma_last_separator(s);
    lemma_separator_is_last(s);
    let p = last_separator(s);
    let part = trimmed(s.skip(p + 1));
    lemma_trimmed(s.skip(p + 1));
    if part.len() > 0 {
        assert(s.subrange(p + 1, s.len() as int) =~= s.skip(p + 1));
    } else {
        assert forall|i: int| p < i < s.len() implies is_white_space(s[i]) by {
            assert(s.skip(p + 1)[i - p - 1] == s[i]);
        }
        if p >= 0 {
            let front = s.take(p);
            law_core_is_last_part(front);
            assert forall|i: int| 0 <= i < p implies front[i] == #[trigger] s[i] by {}
            if core_of(s) is Some {
                let (a, b) = choose|a: int, b: int|
                    {
                        &&& 0 <= a <= b <= front.len()
                        &&& core_of(front)->0 == trimmed(#[trigger] front.subrange(a, b))
                        &&& a == 0 || front[a - 1] == ':' || front[a - 1] == '.' || front[a - 1]
                            == '#'
                        &&& forall|i: int|
                            a <= i < b ==> front[i] != ':' && front[i] != '.' && front[i] != '#'
                        &&& forall|i: int|
                            b <= i < front.len() ==> front[i] == ':' || front[i] == '.' || front[i]
                                == '#' || is_white_space(front[i])
                    };
                assert(front.subrange(a, b) =~= s.subrange(a, b));
            }
        }
    }
}

proof fn lemma_separator_is_last(s: Seq<char>)
    ensures
        last_separator(s) >= 0 ==> s[last_separator(s)] == ':' || s[last_separator(s)] == '.'
            || s[last_separator(s)] == '#',
        forall|i: int|
            last_separator(s) < i < s.len() ==> s[i] != ':' && s[i] != '.' && s[i] != '#',
    decreases s.len(),
{
    if s.len() > 0 && !identifier_separator(s.last()) {
        let front = s.drop_last();
        lemma_separator_is_last(front);
        lemma_last_separator(front);
        assert forall|i: int| 0 <= i < front.len() implies front[i] == #[trigger] s[i] by {}
    }
}

/// The last part of an identifier that is not blank.
pub fn core_identifier(query: &str) -> (r: Option<String>)
    ensures
        text_of(r) == core_of(query@),
{
    let v = chars_of(query);
    let mut end: usize = v.len();
    assert(query@.take(end as int) =~= query@);
    loop
        invariant
            end <= v.len(),
            v@ == query@,
            core_of(query@.take(end as int)) == core_of(query@),
        decreases end,
    {
        let ghost s = query@.take(end as int);
        let mut p: usize = end;
        assert(s.take(p as int) =~= s);
        while p > 0 && !(v[p - 1] == ':' || v[p - 1] == '.' || v[p - 1] == '#')
            invariant
                p <= end <= v.len(),
                v@ == query@,
                s == query@.take(end as int),
                last_separator(s.take(p as int)) == last_separator(s),
            decreases p,
        {
            assert(s.take(p as int).drop_last() =~= s.take(p - 1));
            p -= 1;
        }
        proof {
            if p > 0 {
                assert(s.take(p as int).last() == v@[p - 1]);
            }
            assert(last_separator(s) == p - 1);
        }
        let part = trim(slice_subrange(v.as_slice(), p, end));
        assert(v@.subrange(p as int, end as int) =~= s.skip(p as int));
        if part.len() > 0 {
            return Some(string_of(part));
        }
        if p == 0 {
            return None;
        }
        assert(s.take(p - 1) =~= query@.take(p - 1));
        end = p - 1;
    }
}

/// A lookup among the stored chunks.
#[derive(Debug)]
pub enum LexicalQuery {
    IdentifierIs { value: String },
    SymbolIs { value: String },
    IdentifierLike { pattern: String },
    SymbolLike { pattern: String },
    ContentLike { pattern: String },
}

/// A lookup, by the text of its parts.
pub enum LexicalView {
    IdentifierIs { value: Seq<char> },
    SymbolIs { value: Seq<char> },
    IdentifierLike { pattern: Seq<char> },
    SymbolLike { pattern: Seq<char> },
    ContentLike { pattern: Seq<char> },
}

impl View for LexicalQuery {
    type V = LexicalView;

    open spec fn view(&self) -> LexicalView {
        match self {
            LexicalQuery::IdentifierIs { value } => LexicalView::IdentifierIs { value: value@ },
            LexicalQuery::SymbolIs { value } => LexicalView::SymbolIs { value: value@ },
            LexicalQuery::IdentifierLike { pattern } => LexicalView::IdentifierLike {
                pattern: pattern@,
            },
            LexicalQuery::SymbolLike { pattern } => LexicalView::SymbolLike { pattern: pattern@ },
            LexicalQuery::ContentLike { pattern } => LexicalView::ContentLike { pattern: pattern@ },
        }
    }
}

/// The views of lookups.
pub open spec fn lexical_views(qs: Seq<LexicalQuery>) -> Seq<LexicalView> {
    Seq::new(qs.len(), |i: int| qs[i]@)
}

/// The lookups for a query, in order. For an identifier: those whose identifier or symbol
/// is the query, then those where it holds the query, then the same for its last part.
/// At last, for every query, those whose text holds it.
pub open spec fn plan_of(query: Seq<char>) -> Seq<LexicalView> {
    let last = LexicalView::ContentLike { pattern: holding(query) };
    if identifier_like(query) {
        let named = seq![
            LexicalView::IdentifierIs { value: query },
            LexicalView::SymbolIs { value: query },
            LexicalView::IdentifierLike { pattern: holding(query) },
            LexicalView::SymbolLike { pattern: holding(query) },
        ];
        let parts = match core_of(query) {
            Some(t) => if t == query {
                named
            } else {
                named + seq![
                    LexicalView::IdentifierLike { pattern: holding(t) },
                    LexicalView::SymbolLike { pattern: holding(t) },
                    LexicalView::ContentLike { pattern: holding(t) },
                ]
            },
            None => named,
        };
        parts.push(last)
    } else {
        seq![last]
    }
}

/// A lookup finds a chunk with that identifier, symbol and text.
pub open spec fn lookup_finds(
    q: LexicalView,
    identifier: Option<Seq<char>>,
    symbol: Option<Seq<char>>,
    content: Seq<char>,
    same: spec_fn(char, char) -> bool,
) -> bool {
    match q {
        LexicalView::IdentifierIs { value } => identifier == Some(value),
        LexicalView::SymbolIs { value } => symbol == Some(value),
        LexicalView::IdentifierLike { pattern } => identifier is Some && like_matches(
            pattern,
            identifier->0,
            same,
        ),
        LexicalView::SymbolLike { pattern } => symbol is Some && like_matches(
            pattern,
            symbol->0,
            same,
        ),
        LexicalView::ContentLike { pattern } => like_matches(pattern, content, same),
    }
}

/// Whatever the query, the lookups end with one that finds exactly the chunks whose text
/// holds it. Where the query is an identifier, the first one finds exactly the chunks with
/// that identifier, the second exactly those with that symbol, and the two behind them those
/// whose identifier or symbol holds the query.
pub proof fn law_plan_finds(
    query: Seq<char>,
    identifier: Option<Seq<char>>,
    symbol: Option<Seq<char>>,
    content: Seq<char>,
    same: spec_fn(char, char) -> bool,
)
    ensures
        ({
            let plan = plan_of(query);
            &&& plan.len() > 0
            &&& lookup_finds(plan.last(), identifier, symbol, content, same) <==> exists|i: int|
                #[trigger] stands_at(query, content, i, same)
            &&& identifier_like(query) ==> plan.len() >= 5 && (lookup_finds(
                plan[0],
                identifier,
                symbol,
                content,
                same,
            ) <==> identifier == Some(query)) && (lookup_finds(
                plan[1],
                identifier,
                symbol,
                content,
                same,
            ) <==> symbol == Some(query)) && (lookup_finds(
                plan[2],
                identifier,
                symbol,
                content,
                same,
            ) <==> identifier is Some && exists|i: int|
                #[trigger] stands_at(query, identifier->0, i, same))
                && (lookup_finds(plan[3], identifier, symbol, content, same) <==> symbol is Some
                && exists|i: int|
                #[trigger] stands_at(query, symbol->0, i, same))
            &&& !identifier_like(query) ==> plan.len() == 1
        }),
{
    law_pattern_finds_text(query, content, same);
    if identifier is Some {
        law_pattern_finds_text(query, identifier->0, same);
    }
    if symbol is Some {
        law_pattern_finds_text(query, symbol->0, same);
    }
}

/// The lookups for a query, and how many rows each fetches; none where nothing is wanted.
pub fn lexical_plan(query: &str, limit: usize) -> (r: (Vec<LexicalQuery>, usize))
    ensures
        lexical_views(r.0@) == if limit == 0 {
            Seq::empty()
        } else {
            plan_of(query@)
        },
        r.1 == if 4 * limit > usize::MAX {
            usize::MAX as int
        } else {
            4 * limit
        },
{
    let mut out: Vec<LexicalQuery> = Vec::new();
    let fetch: usize = if limit > usize::MAX / 4 {
        usize::MAX
    } else {
        4 * limit
    };
    if limit == 0 {
        assert(lexical_views(out@) =~= Seq::<LexicalView>::empty());
        return (out, fetch);
    }
    if is_identifier_query(query) {
        out.push(LexicalQuery::IdentifierIs { value: query.to_owned() });
        out.push(LexicalQuery::SymbolIs { value: query.to_owned() });
        out.push(LexicalQuery::IdentifierLike { pattern: like_pattern(query) });
        out.push(LexicalQuery::SymbolLike { pattern: like_pattern(query) });
        if let Some(token) = core_identifier(query) {
            if !same_text(token.as_str(), query) {
                out.push(LexicalQuery::IdentifierLike { pattern: like_pattern(token.as_str()) });
                out.push(LexicalQuery::SymbolLike { pattern: like_pattern(token.as_str()) });
                out.push(LexicalQuery::ContentLike { pattern: like_pattern(token.as_str()) });
            }
        }
    }
    out.push(LexicalQuery::ContentLike { pattern: like_pattern(query) });
    assert(lexical_views(out@) =~= plan_of(query@));
    (out, fetch)
}

// ---------------------------------------------------------------------------
// Filters
// ---------------------------------------------------------------------------

/// What a search leaves out. `language` is in lower case.
#[derive(Debug)]
pub struct SearchFilter {
    pub classification: Option<Classification>,
    pub path_prefix: Option<String>,
    pub path_contains: Option<String>,
    pub language: Option<String>,
}

/// The language of a chunk: the stored one, else that of its file.
pub open spec fn row_language(row: ChunkRow) -> Option<Seq<char>> {
    match row.language {
        Some(l) => Some(l@),
        None => path_language(row.path@),
    }
}

/// The chunk passes the filter.
pub open spec fn passes(f: SearchFilter, row: ChunkRow) -> bool {
    &&& f.classification is Some ==> class_of(row.content@) == f.classification->0
    &&& f.path_prefix is Some ==> begins_with(row.path@, f.path_prefix->0@)
    &&& f.path_contains is Some ==> contains_text(row.path@, f.path_contains->0@)
    &&& f.language is Some ==> row_language(row) is Some && lowercase(row_language(row)->0)
        == f.language->0@
}

/// The language of a chunk.
fn language_of_row(row: &ChunkRow) -> (r: Option<String>)
    ensures
        text_of(r) == row_language(*row),
{
    match &row.language {
        Some(l) => Some(l.clone()),
        None => detect_language(row.path.as_str()),
    }
}

/// A chunk passes exactly where it is all that the caller asked for: its path begins with
/// the prefix, the wanted text stands somewhere in its path, it is of the wanted kind, and
/// its language is the wanted one.
pub proof fn law_filter_asks(f: SearchFilter, row: ChunkRow)
    ensures
        passes(f, row) <==> {
            &&& f.path_prefix matches Some(prefix) ==> prefix@.is_prefix_of(row.path@)
            &&& f.path_contains matches Some(part) ==> exists|i: int|
                0 <= i && i + part@.len() <= row.path@.len() && #[trigger] row.path@.subrange(
                    i,
                    i + part@.len(),
                ) == part@
            &&& f.classification matches Some(kind) ==> class_of(row.content@) == kind
            &&& f.language matches Some(wanted) ==> match row.language {
                Some(own) => lowercase(own@) == wanted@,
                None => path_language(row.path@) matches Some(own) && lowercase(own) == wanted@,
            }
        },
{
    let path = row.path@;
    if let Some(part) = f.path_contains {
        if contains_text(path, part@) {
            let i = choose|i: int| occurs_at(path, part@, i);
            assert(path.subrange(i, i + part@.len()) == part@);
        }
        if exists|i: int|
            0 <= i && i + part@.len() <= path.len() && #[trigger] path.subrange(
                i,
                i + part@.len(),
            ) == part@ {
            let i = choose|i: int|
                0 <= i && i + part@.len() <= path.len() && #[trigger] path.subrange(
                    i,
                    i + part@.len(),
                ) == part@;
            assert(occurs_at(path, part@, i));
        }
    }
    if let Some(prefix) = f.path_prefix {
        if prefix@.is_prefix_of(path) {
            assert(path.subrange(0, prefix@.len() as int) =~= prefix@);
        } else if occurs_at(path, prefix@, 0) {
            assert(prefix@ =~= path.subrange(0, prefix@.len() as int));
        }
    }
}

/// A search for nothing in particular leaves nothing out.
pub proof fn law_no_filter_passes(row: ChunkRow, f: SearchFilter)
    requires
        f.classification is None,
        f.path_prefix is None,
        f.path_contains is None,
        f.language is None,
    ensures
        passes(f, row),
{
}

/// Whether the chunk passes the filter.
pub fn passes_filter(filter: &SearchFilter, row: &ChunkRow) -> (r: bool)
    ensures
        r == passes(*filter, *row),
{
    if let Some(required) = filter.classification {
        if classify_snippet(row.content.as_str()) != required {
            return false;
        }
    }
    if let Some(prefix) = &filter.path_prefix {
        if !str_starts_with(row.path.as_str(), prefix.as_str()) {
            return false;
        }
    }
    if let Some(fragment) = &filter.path_contains {
        if !str_contains(row.path.as_str(), fragment.as_str()) {
            return false;
        }
    }
    if let Some(required) = &filter.language {
        match language_of_row(row) {
            Some(l) => {
                let lower = to_lowercase(l.as_str());
                if !same_text(lower.as_str(), required.as_str()) {
                    return false;
                }
            },
            None => return false,
        }
    }
    true
}

/// `m` is the match that a chunk gives.
pub open spec fn match_of(m: PendingMatch, row: ChunkRow, score: Score, source: SearchSource) -> bool {
    &&& m.id == row.id
    &&& m.path == row.path
    &&& m.chunk_index == row.chunk_index
    &&& m.content == row.content
    &&& m.summary == row.summary
    &&& m.symbol == row.symbol
    &&& m.identifier == row.identifier
    &&& m.source_type == row.source_type
    &&& text_of(m.metadata) == valid_metadata(row.metadata_raw)
    &&& m.byte_start == row.byte_start
    &&& m.byte_end == row.byte_end
    &&& m.line_start == row.line_start
    &&& m.line_end == row.line_end
    &&& m.embedding_model == row.embedding_model
    &&& m.score == score
    &&& m.classification == class_of(row.content@)
    &&& text_of(m.language) == row_language(row)
    &&& m.source == source
}

/// The match that a chunk gives.
pub(crate) fn make_match(row: &ChunkRow, score: Score, source: SearchSource) -> (r: PendingMatch)
    ensures
        match_of(r, *row, score, source),
{
    PendingMatch {
        id: row.id.clone(),
        path: row.path.clone(),
        chunk_index: row.chunk_index,
        content: row.content.clone(),
        summary: row.summary.clone(),
        symbol: row.symbol.clone(),
        identifier: row.identifier.clone(),
        source_type: row.source_type.clone(),
        metadata: keep_metadata(row.metadata_raw.clone()),
        byte_start: row.byte_start,
        byte_end: row.byte_end,
        line_start: row.line_start,
        line_end: row.line_end,
        embedding_model: row.embedding_model.clone(),
        score,
        classification: classify_snippet(row.content.as_str()),
        language: language_of_row(row),
        source,
    }
}

/// The score of the lexical match that follows `n` others: one less a twentieth for each
/// of them, and never below zero.
pub open spec fn lexical_score_of(n: int) -> Score {
    let bits = if n <= 0 {
        0x3f80_0000u32
    } else if n == 1 {
        0x3f73_3333u32
    } else if n == 2 {
        0x3f66_6666u32
    } else if n == 3 {
        0x3f59_999au32
    } else if n == 4 {
        0x3f4c_cccdu32
    } else if n == 5 {
        0x3f40_0000u32
    } else if n == 6 {
        0x3f33_3333u32
    } else if n == 7 {
        0x3f26_6666u32
    } else if n == 8 {
        0x3f19_999au32
    } else if n == 9 {
        0x3f0c_ccccu32
    } else if n == 10 {
        0x3f00_0000u32
    } else if n == 11 {
        0x3ee6_6666u32
    } else if n == 12 {
        0x3ecc_ccccu32
    } else if n == 13 {
        0x3eb3_3332u32
    } else if n == 14 {
        0x3e99_999au32
    } else if n == 15 {
        0x3e80_0000u32
    } else if n == 16 {
        0x3e4c_ccccu32
    } else if n == 17 {
        0x3e19_9998u32
    } else if n == 18 {
        0x3dcc_ccc8u32
    } else if n == 19 {
        0x3d4c_ccd0u32
    } else {
        0u32
    };
    Score { bits }
}

/// The score of the lexical match that follows `n` others.
pub fn lexical_score(n: usize) -> (r: Score)
    ensures
        r == lexical_score_of(n as int),
{
    let bits: u32 = if n == 0 {
        0x3f80_0000
    } else if n == 1 {
        0x3f73_3333
    } else if n == 2 {
        0x3f66_6666
    } else if n == 3 {
        0x3f59_999a
    } else if n == 4 {
        0x3f4c_cccd
    } else if n == 5 {
        0x3f40_0000
    } else if n == 6 {
        0x3f33_3333
    } else if n == 7 {
        0x3f26_6666
    } else if n == 8 {
        0x3f19_999a
    } else if n == 9 {
        0x3f0c_cccc
    } else if n == 10 {
        0x3f00_0000
    } else if n == 11 {
        0x3ee6_6666
    } else if n == 12 {
        0x3ecc_cccc
    } else if n == 13 {
        0x3eb3_3332
    } else if n == 14 {
        0x3e99_999a
    } else if n == 15 {
        0x3e80_0000
    } else if n == 16 {
        0x3e4c_cccc
    } else if n == 17 {
        0x3e19_9998
    } else if n == 18 {
        0x3dcc_ccc8
    } else if n == 19 {
        0x3d4c_ccd0
    } else {
        0
    };
    Score { bits }
}

/// A later lexical match never scores more than an earlier one.
pub proof fn law_lexical_scores_fall(a: int, b: int)
    requires
        a <= b,
    ensures
        score_key(lexical_score_of(b)) <= score_key(lexical_score_of(a)),
        0 <= score_key(lexical_score_of(b)),
{
}

/// The rows that become matches, in order: those that pass the filter and whose id did
/// not come before, at most `limit`.
pub open spec fn accepted(rows: Seq<ChunkRow>, f: SearchFilter, limit: int) -> Seq<int>
    decreases rows.len(),
{
    if rows.len() == 0 {
        Seq::empty()
    } else {
        let before = accepted(rows.drop_last(), f, limit);
        if before.len() < limit && passes(f, rows.last()) && !(exists|k: int|
            0 <= k < before.len() && rows[#[trigger] before[k]].id@ == rows.last().id@) {
            before.push(rows.len() - 1)
        } else {
            before
        }
    }
}

proof fn lemma_accepted(rows: Seq<ChunkRow>, f: SearchFilter, limit: int)
    requires
        limit >= 0,
    ensures
        accepted(rows, f, limit).len() <= limit,
        forall|k: int|
            0 <= k < accepted(rows, f, limit).len() ==> 0 <= #[trigger] accepted(rows, f, limit)[k]
                < rows.len(),
    decreases rows.len(),
{
    if rows.len() > 0 {
        lemma_accepted(rows.drop_last(), f, limit);
    }
}

/// Every accepted chunk passes the filter, no id is accepted twice, and the chunks come
/// in the order of the rows.
pub proof fn law_accepted(rows: Seq<ChunkRow>, f: SearchFilter, limit: int)
    requires
        limit >= 0,
    ensures
        accepted(rows, f, limit).len() <= limit,
        forall|k: int|
            0 <= k < accepted(rows, f, limit).len() ==> {
                let p = #[trigger] accepted(rows, f, limit)[k];
                0 <= p < rows.len() && passes(f, rows[p])
            },
        forall|j: int, k: int|
            0 <= j < k < accepted(rows, f, limit).len() ==> {
                let p = #[trigger] accepted(rows, f, limit)[j];
                let q = #[trigger] accepted(rows, f, limit)[k];
                p < q && rows[p].id@ != rows[q].id@
            },
    decreases rows.len(),
{
    if rows.len() > 0 {
        let front = rows.drop_last();
        law_accepted(front, f, limit);
        let before = accepted(front, f, limit);
        let all = accepted(rows, f, limit);
        assert forall|k: int| 0 <= k < all.len() implies {
            let p = #[trigger] all[k];
            0 <= p < rows.len() && passes(f, rows[p])
        } by {
            if k < before.len() {
                assert(all[k] == before[k]);
                assert(front[before[k]] == rows[before[k]]);
            }
        }
        assert forall|j: int, k: int| 0 <= j < k < all.len() implies {
            let p = #[trigger] all[j];
            let q = #[trigger] all[k];
            p < q && rows[p].id@ != rows[q].id@
        } by {
            assert(all[j] == before[j]);
            assert(front[before[j]] == rows[before[j]]);
            if k < before.len() {
                assert(all[k] == before[k]);
                assert(front[before[k]] == rows[before[k]]);
            }
        }
    }
}

/// The matches are those of the accepted rows.
pub open spec fn lexical_matches_of(
    ms: Seq<PendingMatch>,
    rows: Seq<ChunkRow>,
    f: SearchFilter,
    limit: int,
) -> bool {
    let at = accepted(rows, f, limit);
    &&& ms.len() == at.len()
    &&& forall|k: int|
        0 <= k < at.len() ==> match_of(
            #[trigger] ms[k],
            rows[at[k]],
            lexical_score_of(k),
            SearchSource::Lexical,
        )
}

/// Every lexical match is as the caller asked for, and shows a stored chunk as it is: its
/// path holds the wanted text and begins with the wanted prefix, and it is of the wanted
/// kind and language.
pub proof fn law_lexical_matches_wanted(
    ms: Seq<PendingMatch>,
    rows: Seq<ChunkRow>,
    f: SearchFilter,
    limit: int,
    k: int,
)
    requires
        limit >= 0,
        lexical_matches_of(ms, rows, f, limit),
        0 <= k < ms.len(),
    ensures
        ms.len() <= limit,
        f.path_contains matches Some(part) ==> exists|i: int|
            0 <= i && i + part@.len() <= ms[k].path@.len() && #[trigger] ms[k].path@.subrange(
                i,
                i + part@.len(),
            ) == part@,
        f.path_prefix matches Some(prefix) ==> prefix@.is_prefix_of(ms[k].path@),
        f.classification matches Some(kind) ==> ms[k].classification == kind,
        f.language matches Some(wanted) ==> ms[k].language matches Some(own) && lowercase(own@)
            == wanted@,
        ms[k].source == SearchSource::Lexical,
        exists|r: int|
            0 <= r < rows.len() && (#[trigger] rows[r]).id == ms[k].id && rows[r].path
                == ms[k].path && rows[r].chunk_index == ms[k].chunk_index && rows[r].content
                == ms[k].content && rows[r].line_start == ms[k].line_start && rows[r].line_end
                == ms[k].line_end && rows[r].byte_start == ms[k].byte_start && rows[r].byte_end
                == ms[k].byte_end && rows[r].symbol == ms[k].symbol && rows[r].identifier
                == ms[k].identifier && rows[r].summary == ms[k].summary,
{
    law_accepted(rows, f, limit);
    let at = accepted(rows, f, limit);
    let row = rows[at[k]];
    assert(match_of(ms[k], row, lexical_score_of(k), SearchSource::Lexical));
    assert(passes(f, row));
    law_filter_asks(f, row);
}

/// No chunk is passed over: while there is room, every row that passes the filter is among
/// the matches, if not by itself then by an earlier row with the same id.
pub proof fn law_lexical_matches_complete(
    ms: Seq<PendingMatch>,
    rows: Seq<ChunkRow>,
    f: SearchFilter,
    limit: int,
    r: int,
)
    requires
        lexical_matches_of(ms, rows, f, limit),
        ms.len() < limit,
        0 <= r < rows.len(),
        passes(f, rows[r]),
    ensures
        exists|k: int| 0 <= k < ms.len() && (#[trigger] ms[k]).id@ == rows[r].id@,
{
    lemma_accepted_complete(rows, f, limit, r);
    lemma_accepted(rows, f, limit);
    let at = accepted(rows, f, limit);
    let k = choose|k: int| 0 <= k < at.len() && rows[#[trigger] at[k]].id@ == rows[r].id@;
    assert(match_of(ms[k], rows[at[k]], lexical_score_of(k), SearchSource::Lexical));
}

proof fn lemma_accepted_complete(rows: Seq<ChunkRow>, f: SearchFilter, limit: int, r: int)
    requires
        accepted(rows, f, limit).len() < limit,
        0 <= r < rows.len(),
        passes(f, rows[r]),
    ensures
        exists|k: int|
            0 <= k < accepted(rows, f, limit).len() && rows[#[trigger] accepted(
                rows,
                f,
                limit,
            )[k]].id@ == rows[r].id@,
    decreases rows.len(),
{
    let front = rows.drop_last();
    let before = accepted(front, f, limit);
    let all = accepted(rows, f, limit);
    lemma_accepted(front, f, limit);
    if r < front.len() {
        assert(front[r] == rows[r]);
        lemma_accepted_complete(front, f, limit, r);
        let k = choose|k: int| 0 <= k < before.len() && front[#[trigger] before[k]].id@ == front[r].id@;
        assert(all[k] == before[k]);
        assert(rows[all[k]].id@ == rows[r].id@);
    } else if exists|k: int|
        0 <= k < before.len() && rows[#[trigger] before[k]].id@ == rows.last().id@ {
        let k = choose|k: int|
            0 <= k < before.len() && rows[#[trigger] before[k]].id@ == rows.last().id@;
        assert(rows[all[k]].id@ == rows[r].id@);
    } else {
        assert(rows[all[all.len() - 1]].id@ == rows[r].id@);
    }
}

/// Adds a chunk to the matches where it passes the filter and its id is new. `seen_ids`
/// lists the ids of the matches.
pub fn push_lexical_match(
    matches: &mut Vec<PendingMatch>,
    seen_ids: &mut Vec<String>,
    row: &ChunkRow,
    filter: &SearchFilter,
) -> (r: bool)
    ensures
        r == (passes(*filter, *row) && !texts(old(seen_ids)@).contains(row.id@)),
        r ==> texts(final(seen_ids)@) == texts(old(seen_ids)@).push(row.id@)
            && final(matches)@.len() == old(matches)@.len() + 1 && final(matches)@.drop_last()
            == old(matches)@ && match_of(
            final(matches)@.last(),
            *row,
            lexical_score_of(old(matches)@.len() as int),
            SearchSource::Lexical,
        ),
        !r ==> final(matches)@ == old(matches)@ && final(seen_ids)@ == old(seen_ids)@,
{
    if !passes_filter(filter, row) {
        return false;
    }
    if contains_string(seen_ids, row.id.as_str()) {
        return false;
    }
    push_text(seen_ids, row.id.clone());
    let score = lexical_score(matches.len());
    let ghost before = matches@;
    matches.push(make_match(row, score, SearchSource::Lexical));
    assert(matches@.drop_last() =~= before);
    true
}

/// The matches among the rows that the lookups gave, in the order of the lookups.
pub fn collect_lexical_matches(rows: &[ChunkRow], limit: usize, filter: &SearchFilter) -> (r: Vec<
    PendingMatch,
>)
    ensures
        lexical_matches_of(r@, rows@, *filter, limit as int),
        r@.len() <= limit,
        forall|k: int|
            #![trigger r@[k]]
            0 <= k < r@.len() ==> (filter.path_contains matches Some(part) ==> exists|i: int|
                0 <= i && i + part@.len() <= r@[k].path@.len() && #[trigger] r@[k].path@.subrange(
                    i,
                    i + part@.len(),
                ) == part@) && (filter.path_prefix matches Some(prefix) ==> prefix@.is_prefix_of(
                r@[k].path@,
            )),
{
    let mut matches: Vec<PendingMatch> = Vec::new();
    let mut seen: Vec<String> = Vec::new();
    let mut i: usize = 0;
    assert(rows@.take(0) =~= Seq::<ChunkRow>::empty());
    assert(texts(seen@) =~= Seq::<Seq<char>>::empty());
    while i < rows.len()
        invariant
            i <= rows.len(),
            lexical_matches_of(matches@, rows@.take(i as int), *filter, limit as int),
            matches@.len() <= limit,
            texts(seen@).len() == matches@.len(),
            forall|k: int|
                0 <= k < matches@.len() ==> #[trigger] texts(seen@)[k] == matches@[k].id@,
        decreases rows.len() - i,
    {
        let ghost so_far = rows@.take(i as int);
        let ghost next = rows@.take(i + 1);
        let ghost at = accepted(so_far, *filter, limit as int);
        let ghost before = matches@;
        let ghost seen_before = texts(seen@);
        proof {
            assert(next.drop_last() =~= so_far);
            assert(next.last() == rows@[i as int]);
            lemma_accepted(so_far, *filter, limit as int);
            assert forall|k: int| 0 <= k < at.len() implies next[#[trigger] at[k]].id@
                == seen_before[k] by {
                assert(match_of(
                    before[k],
                    so_far[at[k]],
                    lexical_score_of(k),
                    SearchSource::Lexical,
                ));
                assert(next[at[k]] == so_far[at[k]]);
            }
            let id = rows@[i as int].id@;
            assert(seen_before.contains(id) <==> exists|k: int|
                0 <= k < at.len() && next[#[trigger] at[k]].id@ == id) by {
                if seen_before.contains(id) {
                    let k = choose|k: int| 0 <= k < seen_before.len() && seen_before[k] == id;
                    assert(next[at[k]].id@ == id);
                }
                if exists|k: int| 0 <= k < at.len() && next[#[trigger] at[k]].id@ == id {
                    let k = choose|k: int|
                        0 <= k < at.len() && next[#[trigger] at[k]].id@ == id;
                    assert(seen_before[k] == id);
                }
            }
        }
        if matches.len() < limit {
            let added = push_lexical_match(&mut matches, &mut seen, &rows[i], filter);
            proof {
                if added {
                    assert(matches@ =~= before.push(matches@.last()));
                    let all = accepted(next, *filter, limit as int);
                    assert(all == at.push(i as int));
                    assert forall|k: int| 0 <= k < all.len() implies match_of(
                        #[trigger] matches@[k],
                        next[all[k]],
                        lexical_score_of(k),
                        SearchSource::Lexical,
                    ) by {
                        if k < at.len() {
                            assert(matches@[k] == before[k]);
                            assert(all[k] == at[k]);
                            assert(next[at[k]] == so_far[at[k]]);
                        } else {
                            assert(next[i as int] == rows@[i as int]);
                        }
                    }
                    assert forall|k: int| 0 <= k < matches@.len() implies #[trigger] texts(seen@)[k]
                        == matches@[k].id@ by {
                        if k < before.len() {
                            assert(texts(seen@)[k] == seen_before[k]);
                        }
                    }
                }
            }
        }
        proof {
            if matches@ == before {
                assert forall|k: int| 0 <= k < at.len() implies match_of(
                    #[trigger] matches@[k],
                    next[at[k]],
                    lexical_score_of(k),
                    SearchSource::Lexical,
                ) by {
                    assert(next[at[k]] == so_far[at[k]]);
                }
            }
        }
        i += 1;
    }
    assert(rows@.take(i as int) =~= rows@);
    proof {
        assert forall|k: int| #![trigger matches@[k]] 0 <= k < matches@.len() implies (
        filter.path_contains matches Some(part) ==> exists|i: int|
            0 <= i && i + part@.len() <= matches@[k].path@.len()
                && #[trigger] matches@[k].path@.subrange(i, i + part@.len()) == part@) && (
        filter.path_prefix matches Some(prefix) ==> prefix@.is_prefix_of(matches@[k].path@)) by {
            law_lexical_matches_wanted(matches@, rows@, *filter, limit as int, k);
        }
    }
    matches
}

/// A chunk that a filter lets pass has what the filter asks for, and one that has all of it
/// passes.
pub proof fn law_filter_answers(filter: &SearchFilter, row: &ChunkRow, answer: bool)
    requires
        call_ensures(passes_filter, (filter, row), answer),
    ensures
        answer ==> (filter.path_contains matches Some(part) ==> exists|a: Seq<char>, b: Seq<char>|
            row.path@ == #[trigger] ((a + part@) + b)),
        answer ==> (filter.path_prefix matches Some(prefix) ==> prefix@.is_prefix_of(row.path@)),
        answer ==> (filter.classification matches Some(kind) ==> class_of(row.content@) == kind),
        !answer ==> filter.path_contains is Some || filter.path_prefix is Some
            || filter.classification is Some || filter.language is Some,
        filter.path_prefix is None && filter.classification is None && filter.language is None ==> (
        filter.path_contains matches Some(part) ==> (exists|a: Seq<char>, b: Seq<char>|
            row.path@ == #[trigger] ((a + part@) + b)) ==> answer),
{
    law_filter_asks(*filter, *row);
    if let Some(part) = filter.path_contains {
        crate::pieces::law_occurrence(row.path@, part@);
        if contains_text(row.path@, part@) {
            let i = choose|i: int| occurs_at(row.path@, part@, i);
            assert(row.path@.subrange(i, i + part@.len()) == part@);
        }
    }
}

} // verus!
