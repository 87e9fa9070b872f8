//! Reads a query: what it looks like, what it asks for, and how far each kind of search
//! goes for it.

use vstd::prelude::*;
use crate::pieces::{
    contains_string, contains_text, join, joined, split_whitespace, str_contains, texts, words_of,
};
use crate::score::{at_least, is_nan, less_than, score_key, Score};
use crate::search::{
    ContextGoal, ModelChoiceError, QueryIntent, DEFAULT_CONTEXT_AFTER, DEFAULT_CONTEXT_BEFORE,
    DEFAULT_IDENTIFIER_LIMIT, DEFAULT_RESULT_LIMIT, MAX_CONTEXT_LINES, MAX_EMBEDDING_CANDIDATES,
    MAX_RESULT_LIMIT, MIN_ANN_CANDIDATES,
};
use crate::sizes::{byte_length, utf8_size};
use crate::text::{
    alphanumeric, ascii_lower, chars_of, is_alphanumeric, is_white_space, is_whitespace,
    to_ascii_lowercase, trim_str, trimmed,
};
use crate::ranking::{ints, law_ranking, positions, rank_desc, ranking};

verus! {

// ---------------------------------------------------------------------------
// Numbers of a request
// ---------------------------------------------------------------------------

/// How many results a search returns.
pub fn normalize_limit(limit: Option<u32>) -> (r: usize)
    ensures
        r == (match limit {
            Some(v) => if v > MAX_RESULT_LIMIT {
                MAX_RESULT_LIMIT as int
            } else {
                v as int
            },
            None => DEFAULT_RESULT_LIMIT as int,
        }),
        r <= MAX_RESULT_LIMIT,
{
    match limit {
        Some(v) => if v as usize > MAX_RESULT_LIMIT {
            MAX_RESULT_LIMIT
        } else {
            v as usize
        },
        None => DEFAULT_RESULT_LIMIT,
    }
}

/// A number of context lines, at most six; `default` where none is named.
pub open spec fn context_lines(requested: Option<u32>, default: usize) -> int {
    match requested {
        Some(v) => if v > MAX_CONTEXT_LINES {
            MAX_CONTEXT_LINES as int
        } else {
            v as int
        },
        None => default as int,
    }
}

/// The lines of context before and behind a match.
pub fn context_paddings(before: Option<u32>, after: Option<u32>) -> (r: (usize, usize))
    ensures
        r.0 == context_lines(before, DEFAULT_CONTEXT_BEFORE),
        r.1 == context_lines(after, DEFAULT_CONTEXT_AFTER),
        r.0 <= MAX_CONTEXT_LINES,
        r.1 <= MAX_CONTEXT_LINES,
{
    let b: usize = match before {
        Some(v) => if v as usize > MAX_CONTEXT_LINES {
            MAX_CONTEXT_LINES
        } else {
            v as usize
        },
        None => DEFAULT_CONTEXT_BEFORE,
    };
    let a: usize = match after {
        Some(v) => if v as usize > MAX_CONTEXT_LINES {
            MAX_CONTEXT_LINES
        } else {
            v as usize
        },
        None => DEFAULT_CONTEXT_AFTER,
    };
    (b, a)
}

/// The embedding model of a search: the one requested, which must be in the index, or
/// the only one in the index.
pub fn resolve_requested_model(requested: Option<String>, available: &Vec<String>) -> (r: Result<
    String,
    ModelChoiceError,
>)
    ensures
        match r {
            Ok(m) => match requested {
                Some(q) => m == q && texts(available@).contains(q@),
                None => available@.len() == 1 && m == available@[0],
            },
            Err(ModelChoiceError::ModelNotFound { requested: q, available: a }) => requested
                == Some(q) && !texts(available@).contains(q@) && a@ == joined(
                texts(available@),
                ", "@,
            ),
            Err(ModelChoiceError::MultipleModels { available: a }) => requested is None
                && available@.len() != 1 && a@ == joined(texts(available@), ", "@),
        },
{
    match requested {
        Some(q) => {
            if contains_string(available, q.as_str()) {
                Ok(q)
            } else {
                Err(
                    ModelChoiceError::ModelNotFound {
                        requested: q,
                        available: join(available.as_slice(), ", "),
                    },
                )
            }
        },
        None => {
            if available.len() == 1 {
                Ok(available[0].clone())
            } else {
                Err(ModelChoiceError::MultipleModels { available: join(available.as_slice(), ", ") })
            }
        },
    }
}

// ---------------------------------------------------------------------------
// What a query looks like
// ---------------------------------------------------------------------------

/// A character that an identifier query may hold.
pub open spec fn identifier_char(c: char) -> bool {
    alphanumeric(c) || c == '_' || c == ':' || c == '.' || c == '#'
}

/// The query looks like an identifier: one word of at most 64 bytes.
pub open spec fn identifier_like(query: Seq<char>) -> bool {
    let t = trimmed(query);
    &&& t.len() > 0
    &&& utf8_size(t) <= 64
    &&& forall|i: int| 0 <= i < t.len() ==> !is_white_space(#[trigger] t[i])
    &&& forall|i: int| 0 <= i < t.len() ==> identifier_char(#[trigger] t[i])
}

/// Whether the query looks like an identifier.
pub fn is_identifier_query(query: &str) -> (r: bool)
    ensures
        r == identifier_like(query@),
{
    let t = trim_str(query);
    let v = chars_of(t.as_str());
    if v.len() == 0 || byte_length(t.as_str()) > 64 {
        return false;
    }
    let mut i: usize = 0;
    while i < v.len()
        invariant
            i <= v.len(),
            v@ == trimmed(query@),
            forall|j: int| 0 <= j < i ==> !is_white_space(#[trigger] v@[j]),
            forall|j: int| 0 <= j < i ==> identifier_char(#[trigger] v@[j]),
        decreases v.len() - i,
    {
        let c = v[i];
        if is_whitespace(c) {
            assert(is_white_space(trimmed(query@)[i as int]));
            return false;
        }
        if !(is_alphanumeric(c) || c == '_' || c == ':' || c == '.' || c == '#') {
            assert(!identifier_char(trimmed(query@)[i as int]));
            return false;
        }
        i += 1;
    }
    true
}

/// `c` occurs in `s`.
pub open spec fn has_char(s: Seq<char>, c: char) -> bool {
    s.contains(c)
}

/// Whether `c` occurs in a string.
pub fn str_has_char(s: &str, c: char) -> (r: bool)
    ensures
        r == has_char(s@, c),
{
    let v = chars_of(s);
    let mut i: usize = 0;
    while i < v.len()
        invariant
            i <= v.len(),
            v@ == s@,
            forall|j: int| 0 <= j < i ==> v@[j] != c,
        decreases v.len() - i,
    {
        if v[i] == c {
            assert(s@[i as int] == c);
            return true;
        }
        i += 1;
    }
    false
}

/// The query is worth a lexical search: it looks like an identifier, or it holds a
/// slash, a dot, a hyphen or a space.
pub open spec fn lexical_hint(query: Seq<char>) -> bool {
    identifier_like(query) || has_char(query, '/') || has_char(query, '.') || has_char(query, '-')
        || has_char(query, ' ')
}

/// Whether the query is worth a lexical search.
pub fn should_run_lexical(query: &str) -> (r: bool)
    ensures
        r == lexical_hint(query@),
{
    is_identifier_query(query) || str_has_char(query, '/') || str_has_char(query, '.')
        || str_has_char(query, '-') || str_has_char(query, ' ')
}

/// What a query shows about what it asks for.
#[derive(Debug, Clone, Copy, PartialEq, Eq, Structural)]
pub struct QuerySignals {
    /// It looks like an identifier.
    pub identifier: bool,
    /// It quotes something or speaks of an error.
    pub literal: bool,
    /// It holds a path, a call or a protocol.
    pub structure: bool,
    /// It is long or is a question.
    pub question: bool,
    /// It asks for documentation.
    pub documentation: bool,
    /// It speaks of open work.
    pub open_work: bool,
    /// It asks for usage or an example.
    pub usage: bool,
    /// It asks for an interface.
    pub interface: bool,
    /// It has at most three words.
    pub short: bool,
}

/// What a query shows.
pub open spec fn signals_of(query: Seq<char>, identifier: bool) -> QuerySignals {
    let t = trimmed(query);
    let lower = ascii_lower(t);
    let words = words_of(t).len();
    QuerySignals {
        identifier,
        literal: has_char(t, '"') || has_char(t, '\'') || contains_text(lower, "error"@)
            || contains_text(lower, "exception"@) || contains_text(lower, "failed"@)
            || contains_text(lower, "panic"@) || contains_text(lower, "stack trace"@),
        structure: contains_text(t, "::"@) || contains_text(t, "->"@) || has_char(t, '.')
            || has_char(t, '(') || contains_text(lower, "protocol"@),
        question: words >= 6 || t.len() >= 48 || (t.len() > 0 && t.last() == '?') || contains_text(
            lower,
            "how "@,
        ) || contains_text(lower, "what "@) || contains_text(lower, "why "@) || contains_text(
            lower,
            "explain"@,
        ),
        documentation: contains_text(lower, "doc"@) || contains_text(lower, "comment"@)
            || contains_text(lower, "documentation"@) || contains_text(t, "///"@) || contains_text(
            lower,
            "summary"@,
        ) || contains_text(lower, "remarks"@),
        open_work: contains_text(lower, "todo"@) || contains_text(lower, "fixme"@),
        usage: contains_text(lower, "usage"@) || contains_text(lower, "example"@) || contains_text(
            lower,
            "guide"@,
        ),
        interface: contains_text(lower, "api"@) || contains_text(lower, "interface"@)
            || contains_text(lower, "conformance"@),
        short: words <= 3,
    }
}

/// What a query shows.
pub fn query_signals(query: &str, identifier: bool) -> (r: QuerySignals)
    ensures
        r == signals_of(query@, identifier),
{
    let t = trim_str(query);
    let s = t.as_str();
    let lower_text = to_ascii_lowercase(s);
    let lower = lower_text.as_str();
    let v = chars_of(s);
    let words = split_whitespace(v.as_slice());
    let word_count: usize = words.len();
    assert(texts(words@).len() == words@.len());
    QuerySignals {
        identifier,
        literal: str_has_char(s, '"') || str_has_char(s, '\'') || str_contains(lower, "error")
            || str_contains(lower, "exception") || str_contains(lower, "failed") || str_contains(
            lower,
            "panic",
        ) || str_contains(lower, "stack trace"),
        structure: str_contains(s, "::") || str_contains(s, "->") || str_has_char(s, '.')
            || str_has_char(s, '(') || str_contains(lower, "protocol"),
        question: word_count >= 6 || v.len() >= 48 || (v.len() > 0 && v[v.len() - 1] == '?')
            || str_contains(lower, "how ") || str_contains(lower, "what ") || str_contains(
            lower,
            "why ",
        ) || str_contains(lower, "explain"),
        documentation: str_contains(lower, "doc") || str_contains(lower, "comment")
            || str_contains(lower, "documentation") || str_contains(s, "///") || str_contains(
            lower,
            "summary",
        ) || str_contains(lower, "remarks"),
        open_work: str_contains(lower, "todo") || str_contains(lower, "fixme"),
        usage: str_contains(lower, "usage") || str_contains(lower, "example") || str_contains(
            lower,
            "guide",
        ),
        interface: str_contains(lower, "api") || str_contains(lower, "interface") || str_contains(
            lower,
            "conformance",
        ),
        short: word_count <= 3,
    }
}

/// The query speaks of something that goes wrong.
pub open spec fn speaks_of_debugging(lower: Seq<char>) -> bool {
    contains_text(lower, "error"@) || contains_text(lower, "fail"@) || contains_text(
        lower,
        "panic"@,
    ) || contains_text(lower, "exception"@) || contains_text(lower, "debug"@) || contains_text(
        lower,
        "stack trace"@,
    ) || contains_text(lower, "crash"@) || contains_text(lower, "fix"@)
}

/// The query speaks of how something is used.
pub open spec fn speaks_of_api(lower: Seq<char>) -> bool {
    contains_text(lower, "usage"@) || contains_text(lower, "example"@) || contains_text(
        lower,
        "api"@,
    ) || contains_text(lower, "interface"@) || contains_text(lower, "how do"@) || contains_text(
        lower,
        "how to"@,
    ) || contains_text(lower, "docs"@) || contains_text(lower, "documentation"@)
}

/// The query speaks of a change.
pub open spec fn speaks_of_change(lower: Seq<char>) -> bool {
    contains_text(lower, "impact"@) || contains_text(lower, "refactor"@) || contains_text(
        lower,
        "change"@,
    ) || contains_text(lower, "diff"@) || contains_text(lower, "upgrade"@) || contains_text(
        lower,
        "regression"@,
    ) || contains_text(lower, "breaking"@) || contains_text(lower, "deprecate"@)
}

/// The query asks where something is.
pub open spec fn speaks_of_place(lower: Seq<char>) -> bool {
    contains_text(lower, "where"@) || contains_text(lower, "path"@) || contains_text(lower, "file"@)
        || contains_text(lower, "module"@) || contains_text(lower, "navigate"@) || contains_text(
        lower,
        "definition"@,
    ) || contains_text(lower, "symbol"@) || contains_text(lower, "jump"@)
}

/// `s` with `goal` behind it where `condition` holds.
pub open spec fn goal_if(s: Seq<ContextGoal>, condition: bool, goal: ContextGoal) -> Seq<
    ContextGoal,
> {
    if condition {
        s.push(goal)
    } else {
        s
    }
}

/// What the caller wants the context for, as far as the query shows it.
pub open spec fn goals_of(query: Seq<char>) -> Seq<ContextGoal> {
    let lower = ascii_lower(query);
    let g0 = goal_if(Seq::empty(), speaks_of_debugging(lower), ContextGoal::Debugging);
    let g1 = goal_if(g0, speaks_of_api(lower), ContextGoal::ApiDiscovery);
    let g2 = goal_if(g1, speaks_of_change(lower), ContextGoal::ChangeImpact);
    let g3 = goal_if(g2, speaks_of_place(lower), ContextGoal::Navigation);
    if g3.len() == 0 {
        seq![ContextGoal::GeneralUnderstanding]
    } else {
        g3
    }
}

/// What the caller wants the context for, as far as the query shows it.
pub fn detect_context_goals(query: &str) -> (r: Vec<ContextGoal>)
    ensures
        r@ == goals_of(query@),
        r@.len() > 0,
{
    let lower_text = to_ascii_lowercase(query);
    let lower = lower_text.as_str();
    let mut goals: Vec<ContextGoal> = Vec::new();
    if str_contains(lower, "error") || str_contains(lower, "fail") || str_contains(lower, "panic")
        || str_contains(lower, "exception") || str_contains(lower, "debug") || str_contains(
        lower,
        "stack trace",
    ) || str_contains(lower, "crash") || str_contains(lower, "fix") {
        goals.push(ContextGoal::Debugging);
    }
    if str_contains(lower, "usage") || str_contains(lower, "example") || str_contains(lower, "api")
        || str_contains(lower, "interface") || str_contains(lower, "how do") || str_contains(
        lower,
        "how to",
    ) || str_contains(lower, "docs") || str_contains(lower, "documentation") {
        goals.push(ContextGoal::ApiDiscovery);
    }
    if str_contains(lower, "impact") || str_contains(lower, "refactor") || str_contains(
        lower,
        "change",
    ) || str_contains(lower, "diff") || str_contains(lower, "upgrade") || str_contains(
        lower,
        "regression",
    ) || str_contains(lower, "breaking") || str_contains(lower, "deprecate") {
        goals.push(ContextGoal::ChangeImpact);
    }
    if str_contains(lower, "where") || str_contains(lower, "path") || str_contains(lower, "file")
        || str_contains(lower, "module") || str_contains(lower, "navigate") || str_contains(
        lower,
        "definition",
    ) || str_contains(lower, "symbol") || str_contains(lower, "jump") {
        goals.push(ContextGoal::Navigation);
    }
    if goals.len() == 0 {
        goals.push(ContextGoal::GeneralUnderstanding);
        assert(goals@ =~= seq![ContextGoal::GeneralUnderstanding]);
    }
    goals
}

/// Whether a goal is among the goals.
pub fn goals_contains(goals: &[ContextGoal], goal: ContextGoal) -> (r: bool)
    ensures
        r == goals@.contains(goal),
{
    let mut i: usize = 0;
    while i < goals.len()
        invariant
            i <= goals.len(),
            forall|j: int| 0 <= j < i ==> goals@[j] != goal,
        decreases goals.len() - i,
    {
        if goals[i] == goal {
            assert(goals@[i as int] == goal);
            return true;
        }
        i += 1;
    }
    false
}

/// Every goal that is found is found once, and there is always one.
pub proof fn law_goals_distinct(query: Seq<char>)
    ensures
        goals_of(query).len() > 0,
        forall|i: int, j: int|
            0 <= i < j < goals_of(query).len() ==> goals_of(query)[i] != goals_of(query)[j],
        goals_of(query).contains(ContextGoal::GeneralUnderstanding) ==> goals_of(query).len() == 1,
{
    let lower = ascii_lower(query);
    let g0 = goal_if(Seq::empty(), speaks_of_debugging(lower), ContextGoal::Debugging);
    let g1 = goal_if(g0, speaks_of_api(lower), ContextGoal::ApiDiscovery);
    let g2 = goal_if(g1, speaks_of_change(lower), ContextGoal::ChangeImpact);
    let g3 = goal_if(g2, speaks_of_place(lower), ContextGoal::Navigation);
    assert(g3.len() <= 4);
}

// ---------------------------------------------------------------------------
// Weights and budgets
// ---------------------------------------------------------------------------

/// What the weights of a query come to. A weight is the share of its kind of search.
#[derive(Debug, Clone)]
pub struct QueryAnalysis {
    pub primary_intent: QueryIntent,
    pub lexical_weight: Score,
    pub embedding_weight: Score,
    pub confidence: Score,
    pub goals: Vec<ContextGoal>,
}

/// The key of 0.65.
pub const KEY_0_65: i64 = 0x3f26_6666;

/// The key of 0.5.
pub const KEY_0_5: i64 = 0x3f00_0000;

/// The key of 0.45.
pub const KEY_0_45: i64 = 0x3ee6_6666;

/// The key of 0.4.
pub const KEY_0_4: i64 = 0x3ecc_cccd;

/// The key of 0.35.
pub const KEY_0_35: i64 = 0x3eb3_3333;

/// The key of 0.3.
pub const KEY_0_3: i64 = 0x3e99_999a;

/// The key of 0.2.
pub const KEY_0_2: i64 = 0x3e4c_cccd;

/// The key of 0.15.
pub const KEY_0_15: i64 = 0x3e19_999a;

/// The key of 0.08.
pub const KEY_0_08: i64 = 0x3da3_d70a;

/// The intents in the order in which their weights are listed.
pub open spec fn listed_intent(i: int) -> QueryIntent {
    if i == 0 {
        QueryIntent::Lexical
    } else if i == 1 {
        QueryIntent::Embedding
    } else if i == 2 {
        QueryIntent::Graph
    } else {
        QueryIntent::Docstring
    }
}

/// The keys of four weights. Where one of them is no number they count as equal.
pub open spec fn weight_keys(lexical: Score, embedding: Score, graph: Score, docstring: Score) -> Seq<
    int,
> {
    if is_nan(lexical) || is_nan(embedding) || is_nan(graph) || is_nan(docstring) {
        seq![0, 0, 0, 0]
    } else {
        seq![score_key(lexical), score_key(embedding), score_key(graph), score_key(docstring)]
    }
}

/// The intent with the greatest weight, its position, and the position of the second
/// greatest. Of equal weights the one listed first counts as greater.
pub fn leading_intents(lexical: Score, embedding: Score, graph: Score, docstring: Score) -> (r: (
    QueryIntent,
    usize,
    usize,
))
    ensures
        ({
            let order = ranking(weight_keys(lexical, embedding, graph, docstring), 4);
            r.1 == order[0] && r.2 == order[1] && r.0 == listed_intent(order[0]) && r.1 < 4 && r.2
                < 4
        }),
{
    let keys: Vec<i64> = if lexical.is_nan() || embedding.is_nan() || graph.is_nan()
        || docstring.is_nan() {
        vec![0, 0, 0, 0]
    } else {
        vec![lexical.key(), embedding.key(), graph.key(), docstring.key()]
    };
    assert(ints(keys@) =~= weight_keys(lexical, embedding, graph, docstring));
    let order = rank_desc(keys.as_slice());
    proof {
        law_ranking(ints(keys@), 4);
        assert(positions(order@)[0] == order@[0] as int);
        assert(positions(order@)[1] == order@[1] as int);
    }
    let first: usize = order[0];
    let second: usize = order[1];
    let intent = if first == 0 {
        QueryIntent::Lexical
    } else if first == 1 {
        QueryIntent::Embedding
    } else if first == 2 {
        QueryIntent::Graph
    } else {
        QueryIntent::Docstring
    };
    (intent, first, second)
}

/// The intent of a query whose two greatest weights differ by `gap`: a small gap makes
/// it a mixed one.
pub fn settle_intent(leading: QueryIntent, gap: Score) -> (r: QueryIntent)
    ensures
        r == if less_than(gap, KEY_0_15 as int) {
            QueryIntent::Hybrid
        } else {
            leading
        },
{
    if gap.falls_short(KEY_0_15) {
        QueryIntent::Hybrid
    } else {
        leading
    }
}

/// How far the kinds of search go for a query.
#[derive(Debug, Clone, Copy)]
pub struct SearchBudgetProfile {
    pub lexical_limit: usize,
    pub embedding_probe_factor: usize,
    pub lexical_probe_factor: usize,
    pub run_lexical: bool,
}

/// The greater of two integers.
pub open spec fn larger(a: int, b: int) -> int {
    if a >= b {
        a
    } else {
        b
    }
}

/// The smaller of two integers.
pub open spec fn smaller(a: int, b: int) -> int {
    if a <= b {
        a
    } else {
        b
    }
}

/// How many candidates are drawn for each result, by the weight of embeddings.
pub open spec fn embedding_factor(w: Score) -> int {
    if at_least(w, KEY_0_65 as int) {
        5
    } else if at_least(w, KEY_0_45 as int) {
        4
    } else if at_least(w, KEY_0_3 as int) {
        3
    } else {
        2
    }
}

/// How much each lexical match widens the search, by the weight of words.
pub open spec fn lexical_factor(w: Score) -> int {
    if at_least(w, KEY_0_5 as int) {
        3
    } else if at_least(w, KEY_0_2 as int) {
        2
    } else {
        1
    }
}

/// A lexical search is run for a query.
pub open spec fn runs_lexical(hint: bool, identifier: bool, w: Score) -> bool {
    hint || at_least(w, KEY_0_08 as int) || identifier
}

/// The lexical limit of a query: its share of the results, at least three for an
/// identifier, and not more than the results wanted or six.
pub open spec fn lexical_limit_of(base: int, run: bool, identifier: bool, share: int) -> int {
    let wanted = if run {
        share
    } else {
        0
    };
    let raised = if identifier {
        larger(wanted, DEFAULT_IDENTIFIER_LIMIT as int)
    } else {
        wanted
    };
    let capped = smaller(raised, larger(larger(base, 1), DEFAULT_RESULT_LIMIT as int));
    if run {
        larger(capped, 1)
    } else {
        capped
    }
}

/// How many candidates the embeddings rank: for each result as many as the factor says,
/// but at least six and at most 256.
pub open spec fn top_limit_of(p: SearchBudgetProfile, base: int) -> int {
    smaller(
        larger(larger(base, 1) * p.embedding_probe_factor, DEFAULT_RESULT_LIMIT as int),
        MAX_EMBEDDING_CANDIDATES as int,
    )
}

impl SearchBudgetProfile {
    /// How far the kinds of search go. `lexical_share` is the lexical weight, but at
    /// least 0.12, of the results wanted, rounded up.
    pub fn for_analysis(
        base_limit: usize,
        lexical_hint: bool,
        identifier_like: bool,
        analysis: &QueryAnalysis,
        lexical_share: usize,
    ) -> (r: Self)
        ensures
            r.embedding_probe_factor == embedding_factor(analysis.embedding_weight),
            r.lexical_probe_factor == lexical_factor(analysis.lexical_weight),
            r.run_lexical == runs_lexical(lexical_hint, identifier_like, analysis.lexical_weight),
            r.lexical_limit == lexical_limit_of(
                base_limit as int,
                r.run_lexical,
                identifier_like,
                lexical_share as int,
            ),
    {
        let base: usize = if base_limit < 1 {
            1
        } else {
            base_limit
        };
        let e = &analysis.embedding_weight;
        let embedding_probe_factor: usize = if e.reaches(KEY_0_65) {
            5
        } else if e.reaches(KEY_0_45) {
            4
        } else if e.reaches(KEY_0_3) {
            3
        } else {
            2
        };
        let l = &analysis.lexical_weight;
        let lexical_probe_factor: usize = if l.reaches(KEY_0_5) {
            3
        } else if l.reaches(KEY_0_2) {
            2
        } else {
            1
        };
        let run_lexical = lexical_hint || l.reaches(KEY_0_08) || identifier_like;
        let mut lexical_limit: usize = if run_lexical {
            lexical_share
        } else {
            0
        };
        if identifier_like && lexical_limit < DEFAULT_IDENTIFIER_LIMIT {
            lexical_limit = DEFAULT_IDENTIFIER_LIMIT;
        }
        let ceiling: usize = if base > DEFAULT_RESULT_LIMIT {
            base
        } else {
            DEFAULT_RESULT_LIMIT
        };
        if lexical_limit > ceiling {
            lexical_limit = ceiling;
        }
        if run_lexical && lexical_limit < 1 {
            lexical_limit = 1;
        }
        SearchBudgetProfile {
            lexical_limit,
            embedding_probe_factor,
            lexical_probe_factor,
            run_lexical,
        }
    }

    /// How many candidates the embeddings rank.
    pub fn embedding_top_limit(&self, base_limit: usize) -> (r: usize)
        ensures
            r == top_limit_of(*self, base_limit as int),
            DEFAULT_RESULT_LIMIT <= r <= MAX_EMBEDDING_CANDIDATES,
    {
        let base: usize = if base_limit < 1 {
            1
        } else {
            base_limit
        };
        match base.checked_mul(self.embedding_probe_factor) {
            Some(v) => {
                if v < DEFAULT_RESULT_LIMIT {
                    DEFAULT_RESULT_LIMIT
                } else if v > MAX_EMBEDDING_CANDIDATES {
                    MAX_EMBEDDING_CANDIDATES
                } else {
                    v
                }
            },
            None => MAX_EMBEDDING_CANDIDATES,
        }
    }

    /// How many neighbours the vector index is asked for.
    pub fn ann_search_k(&self, base_limit: usize, lexical_results: usize) -> (r: usize)
        ensures
            r == larger(
                smaller(
                    larger(
                        larger(
                            larger(base_limit as int, 1) * self.embedding_probe_factor,
                            lexical_results * self.lexical_probe_factor,
                        ),
                        larger(base_limit as int, 1),
                    ),
                    MAX_EMBEDDING_CANDIDATES as int,
                ),
                MIN_ANN_CANDIDATES as int,
            ),
            MIN_ANN_CANDIDATES <= r <= MAX_EMBEDDING_CANDIDATES,
    {
        let base: usize = if base_limit < 1 {
            1
        } else {
            base_limit
        };
        let probe: usize = match base.checked_mul(self.embedding_probe_factor) {
            Some(v) => v,
            None => usize::MAX,
        };
        let influence: usize = match lexical_results.checked_mul(self.lexical_probe_factor) {
            Some(v) => v,
            None => usize::MAX,
        };
        let mut k: usize = if probe > influence {
            probe
        } else {
            influence
        };
        if k < base {
            k = base;
        }
        if k > MAX_EMBEDDING_CANDIDATES {
            k = MAX_EMBEDDING_CANDIDATES;
        }
        if k < MIN_ANN_CANDIDATES {
            k = MIN_ANN_CANDIDATES;
        }
        k
    }

    /// Whether a lexical search is run.
    pub fn should_run_lexical(&self) -> (r: bool)
        ensures
            r == (self.run_lexical && self.lexical_limit > 0),
    {
        self.run_lexical && self.lexical_limit > 0
    }

    /// How many matches the lexical search gives.
    pub fn lexical_limit(&self) -> (r: usize)
        ensures
            r == self.lexical_limit,
    {
        self.lexical_limit
    }
}

/// Whether the embeddings are searched: not where an identifier was found by its words
/// and embeddings count for little, nor where the words gave enough.
pub fn should_search_embeddings(
    identifier_query: bool,
    lexical_count: usize,
    embedding_weight: Score,
    limit: usize,
) -> (r: bool)
    ensures
        r == (!(identifier_query && lexical_count > 0 && less_than(
            embedding_weight,
            KEY_0_35 as int,
        )) && lexical_count < limit),
{
    let skip = identifier_query && lexical_count > 0 && embedding_weight.falls_short(KEY_0_35);
    !skip && lexical_count < limit
}

// ---------------------------------------------------------------------------
// What holds of a query and its limits
// ---------------------------------------------------------------------------

/// Nobody gets more than six lines of context, who asks for fewer gets those, and only who
/// asks for nothing gets the default.
pub proof fn law_context_lines(requested: Option<u32>, default: usize)
    ensures
        requested matches Some(v) ==> v <= 6 ==> context_lines(requested, default) == v,
        requested matches Some(v) ==> v >= 6 ==> context_lines(requested, default) == 6,
        requested is None ==> context_lines(requested, default) == default,
{
}

/// A query that is blank, has white space inside, takes more than 64 bytes or holds
/// anything but letters, digits and the marks of names is no identifier; every other is one.
pub proof fn law_identifier(query: Seq<char>, i: int)
    ensures
        trimmed(query).len() == 0 ==> !identifier_like(query),
        utf8_size(trimmed(query)) > 64 ==> !identifier_like(query),
        0 <= i < trimmed(query).len() && is_white_space(trimmed(query)[i]) ==> !identifier_like(
            query,
        ),
        0 <= i < trimmed(query).len() && !alphanumeric(trimmed(query)[i]) && trimmed(query)[i] != '_'
            && trimmed(query)[i] != ':' && trimmed(query)[i] != '.' && trimmed(query)[i] != '#'
            ==> !identifier_like(query),
        0 < trimmed(query).len() && utf8_size(trimmed(query)) <= 64 && (forall|k: int|
            0 <= k < trimmed(query).len() ==> !is_white_space(#[trigger] trimmed(query)[k]) && (
            alphanumeric(trimmed(query)[k]) || trimmed(query)[k] == '_' || trimmed(query)[k] == ':'
                || trimmed(query)[k] == '.' || trimmed(query)[k] == '#')) ==> identifier_like(query),
{
}

/// A query is worth a search for its words exactly where it is an identifier or has a
/// slash, a dot, a hyphen or a space in it.
pub proof fn law_lexical_hint(query: Seq<char>)
    ensures
        lexical_hint(query) <==> identifier_like(query) || query.contains('/') || query.contains(
            '.',
        ) || query.contains('-') || query.contains(' '),
{
}

proof fn lemma_goal_if(s: Seq<ContextGoal>, condition: bool, goal: ContextGoal, wanted: ContextGoal)
    ensures
        goal_if(s, condition, goal).contains(wanted) <==> s.contains(wanted) || (condition && goal
            == wanted),
        goal_if(s, condition, goal).len() == 0 <==> s.len() == 0 && !condition,
{
    let t = goal_if(s, condition, goal);
    if s.contains(wanted) {
        let k = choose|k: int| 0 <= k < s.len() && s[k] == wanted;
        assert(t[k] == wanted);
    }
    if condition && goal == wanted {
        assert(t[s.len() as int] == wanted);
    }
    if t.contains(wanted) {
        let k = choose|k: int| 0 <= k < t.len() && t[k] == wanted;
        if k < s.len() {
            assert(s[k] == wanted);
        }
    }
}

proof fn lemma_goals(query: Seq<char>, wanted: ContextGoal)
    ensures
        ({
            let lower = ascii_lower(query);
            let some = speaks_of_debugging(lower) || speaks_of_api(lower) || speaks_of_change(lower)
                || speaks_of_place(lower);
            goals_of(query).contains(wanted) <==> (speaks_of_debugging(lower) && wanted
                == ContextGoal::Debugging) || (speaks_of_api(lower) && wanted
                == ContextGoal::ApiDiscovery) || (speaks_of_change(lower) && wanted
                == ContextGoal::ChangeImpact) || (speaks_of_place(lower) && wanted
                == ContextGoal::Navigation) || (!some && wanted
                == ContextGoal::GeneralUnderstanding)
        }),
{
    let lower = ascii_lower(query);
    let none = Seq::<ContextGoal>::empty();
    let g0 = goal_if(none, speaks_of_debugging(lower), ContextGoal::Debugging);
    let g1 = goal_if(g0, speaks_of_api(lower), ContextGoal::ApiDiscovery);
    let g2 = goal_if(g1, speaks_of_change(lower), ContextGoal::ChangeImpact);
    lemma_goal_if(none, speaks_of_debugging(lower), ContextGoal::Debugging, wanted);
    lemma_goal_if(g0, speaks_of_api(lower), ContextGoal::ApiDiscovery, wanted);
    lemma_goal_if(g1, speaks_of_change(lower), ContextGoal::ChangeImpact, wanted);
    lemma_goal_if(g2, speaks_of_place(lower), ContextGoal::Navigation, wanted);
    let general = seq![ContextGoal::GeneralUnderstanding];
    assert(general[0] == ContextGoal::GeneralUnderstanding);
    if general.contains(wanted) {
        let k = choose|k: int| 0 <= k < general.len() && general[k] == wanted;
        assert(k == 0);
    }
}

/// Each goal is found by its words, in whatever case they are written, and by nothing else;
/// the general goal is the one of a query with none of these words.
pub proof fn law_goals(query: Seq<char>)
    ensures
        ({
            let lower = ascii_lower(query);
            let goals = goals_of(query);
            &&& goals.contains(ContextGoal::Debugging) <==> contains_text(lower, "error"@)
                || contains_text(lower, "fail"@) || contains_text(lower, "panic"@) || contains_text(
                lower,
                "exception"@,
            ) || contains_text(lower, "debug"@) || contains_text(lower, "stack trace"@)
                || contains_text(lower, "crash"@) || contains_text(lower, "fix"@)
            &&& goals.contains(ContextGoal::ApiDiscovery) <==> contains_text(lower, "usage"@)
                || contains_text(lower, "example"@) || contains_text(lower, "api"@)
                || contains_text(lower, "interface"@) || contains_text(lower, "how do"@)
                || contains_text(lower, "how to"@) || contains_text(lower, "docs"@)
                || contains_text(lower, "documentation"@)
            &&& goals.contains(ContextGoal::ChangeImpact) <==> contains_text(lower, "impact"@)
                || contains_text(lower, "refactor"@) || contains_text(lower, "change"@)
                || contains_text(lower, "diff"@) || contains_text(lower, "upgrade"@)
                || contains_text(lower, "regression"@) || contains_text(lower, "breaking"@)
                || contains_text(lower, "deprecate"@)
            &&& goals.contains(ContextGoal::Navigation) <==> contains_text(lower, "where"@)
                || contains_text(lower, "path"@) || contains_text(lower, "file"@) || contains_text(
                lower,
                "module"@,
            ) || contains_text(lower, "navigate"@) || contains_text(lower, "definition"@)
                || contains_text(lower, "symbol"@) || contains_text(lower, "jump"@)
            &&& goals.contains(ContextGoal::GeneralUnderstanding) <==> !goals.contains(
                ContextGoal::Debugging,
            ) && !goals.contains(ContextGoal::ApiDiscovery) && !goals.contains(
                ContextGoal::ChangeImpact,
            ) && !goals.contains(ContextGoal::Navigation)
        }),
{
    lemma_goals(query, ContextGoal::Debugging);
    lemma_goals(query, ContextGoal::ApiDiscovery);
    lemma_goals(query, ContextGoal::ChangeImpact);
    lemma_goals(query, ContextGoal::Navigation);
    lemma_goals(query, ContextGoal::GeneralUnderstanding);
}

/// The case of ASCII letters changes nothing of the goals of a query.
pub proof fn law_case_ignored(query: Seq<char>)
    ensures
        goals_of(ascii_lower(query)) == goals_of(query),
{
    assert(ascii_lower(ascii_lower(query)) =~= ascii_lower(query));
}

/// What a query shows: it is short with at most three words, and a question with six or
/// more, with 48 characters or more, with a question mark at its end, or with one of the
/// words of a question.
pub proof fn law_signals(query: Seq<char>, identifier: bool)
    ensures
        ({
            let t = trimmed(query);
            let lower = ascii_lower(t);
            let s = signals_of(query, identifier);
            &&& s.identifier == identifier
            &&& s.short <==> words_of(t).len() <= 3
            &&& words_of(t).len() >= 6 || t.len() >= 48 ==> s.question
            &&& t.len() > 0 && t.last() == '?' ==> s.question
            &&& s.question ==> words_of(t).len() >= 6 || t.len() >= 48 || t.last() == '?'
                || contains_text(lower, "how "@) || contains_text(lower, "what "@) || contains_text(
                lower,
                "why "@,
            ) || contains_text(lower, "explain"@)
            &&& contains_text(lower, "how "@) || contains_text(lower, "what "@) || contains_text(
                lower,
                "why "@,
            ) || contains_text(lower, "explain"@) ==> s.question
            &&& s.literal <==> t.contains('"') || t.contains('\'') || contains_text(lower, "error"@)
                || contains_text(lower, "exception"@) || contains_text(lower, "failed"@)
                || contains_text(lower, "panic"@) || contains_text(lower, "stack trace"@)
            &&& s.structure <==> contains_text(t, "::"@) || contains_text(t, "->"@) || t.contains('.')
                || t.contains('(') || contains_text(lower, "protocol"@)
            &&& s.documentation <==> contains_text(lower, "doc"@) || contains_text(lower, "comment"@)
                || contains_text(t, "///"@) || contains_text(lower, "summary"@) || contains_text(
                lower,
                "remarks"@,
            )
            &&& s.open_work <==> contains_text(lower, "todo"@) || contains_text(lower, "fixme"@)
            &&& s.usage <==> contains_text(lower, "usage"@) || contains_text(lower, "example"@)
                || contains_text(lower, "guide"@)
            &&& s.interface <==> contains_text(lower, "api"@) || contains_text(lower, "interface"@)
                || contains_text(lower, "conformance"@)
        }),
{
    let lower = ascii_lower(trimmed(query));
    reveal_strlit("doc");
    reveal_strlit("documentation");
    if contains_text(lower, "documentation"@) {
        let i = choose|i: int| crate::pieces::occurs_at(lower, "documentation"@, i);
        let part = lower.subrange(i, i + "documentation"@.len());
        assert(lower.subrange(i, i + 3) =~= part.subrange(0, 3));
        assert("documentation"@.subrange(0, 3) =~= "doc"@);
        assert(crate::pieces::occurs_at(lower, "doc"@, i));
    }
}

/// The leading intent has the greatest weight, and the one behind it the greatest of the
/// others, where all four weights are numbers; of equal weights the one listed first leads.
pub proof fn law_leading(lexical: Score, embedding: Score, graph: Score, docstring: Score, i: int)
    requires
        0 <= i < 4,
    ensures
        ({
            let keys = weight_keys(lexical, embedding, graph, docstring);
            let first = ranking(keys, 4)[0];
            let second = ranking(keys, 4)[1];
            &&& 0 <= first < 4 && 0 <= second < 4 && first != second
            &&& keys[first] >= keys[i]
            &&& keys[first] == keys[i] ==> first <= i
            &&& i != first ==> keys[second] >= keys[i]
            &&& i != first && keys[second] == keys[i] ==> second <= i
        }),
{
    let keys = weight_keys(lexical, embedding, graph, docstring);
    let order = ranking(keys, 4);
    crate::ranking::law_ranking(keys, 4);
    assert(order.contains(i));
    let p = choose|p: int| 0 <= p < order.len() && order[p] == i;
    assert(order.contains(order[0]) && order.contains(order[1]));
    assert(crate::ranking::ranks_before(keys, order[0], order[1]));
    if p > 0 {
        assert(crate::ranking::ranks_before(keys, order[0], order[p]));
    }
    if p > 1 {
        assert(crate::ranking::ranks_before(keys, order[1], order[p]));
    }
}

/// The weights keep their places: words, meaning, graph, documentation.
pub proof fn law_listed_intents(lexical: Score, embedding: Score, graph: Score, docstring: Score)
    requires
        !is_nan(lexical),
        !is_nan(embedding),
        !is_nan(graph),
        !is_nan(docstring),
    ensures
        listed_intent(0) == QueryIntent::Lexical && weight_keys(
            lexical,
            embedding,
            graph,
            docstring,
        )[0] == score_key(lexical),
        listed_intent(1) == QueryIntent::Embedding && weight_keys(
            lexical,
            embedding,
            graph,
            docstring,
        )[1] == score_key(embedding),
        listed_intent(2) == QueryIntent::Graph && weight_keys(
            lexical,
            embedding,
            graph,
            docstring,
        )[2] == score_key(graph),
        listed_intent(3) == QueryIntent::Docstring && weight_keys(
            lexical,
            embedding,
            graph,
            docstring,
        )[3] == score_key(docstring),
{
}

/// The more embeddings or words count, the further their search goes: from two to five
/// candidates for each result, and from one to three for each lexical match.
pub proof fn law_factors_grow(low: Score, high: Score)
    requires
        !is_nan(low),
        !is_nan(high),
        score_key(low) <= score_key(high),
    ensures
        2 <= embedding_factor(low) <= embedding_factor(high) <= 5,
        1 <= lexical_factor(low) <= lexical_factor(high) <= 3,
        embedding_factor(low) == 5 <==> score_key(low) >= 0x3f26_6666,
        embedding_factor(low) >= 4 <==> score_key(low) >= 0x3ee6_6666,
        embedding_factor(low) >= 3 <==> score_key(low) >= 0x3e99_999a,
        lexical_factor(low) == 3 <==> score_key(low) >= 0x3f00_0000,
        lexical_factor(low) >= 2 <==> score_key(low) >= 0x3e4c_cccd,
{
}

/// A search for words is run for an identifier, on a hint, or where words count for
/// something. One that is run may find at least one match, for an identifier at least three,
/// and never more than the results wanted, or six; one that is not run finds none.
pub proof fn law_lexical_limit(base: int, run: bool, identifier: bool, share: int)
    requires
        base >= 0,
        share >= 0,
    ensures
        ({
            let limit = lexical_limit_of(base, run, identifier, share);
            &&& run ==> limit >= 1
            &&& identifier ==> limit >= 3
            &&& !run && !identifier ==> limit == 0
            &&& limit <= 6 || limit <= base
            &&& run && 1 <= share <= 6 && !identifier ==> limit == share
            &&& run && share >= 3 && share <= 6 ==> limit == share
            &&& run && share >= base && base >= 6 ==> limit == base
        }),
        forall|hint: bool, w: Score| #[trigger]
            runs_lexical(hint, identifier, w) <==> hint || identifier || at_least(w, 0x3da3_d70a),
{
}

/// The embeddings rank at least six and at most 256 candidates, and between these the
/// factor for each result.
pub proof fn law_top_limit(p: SearchBudgetProfile, base: int)
    requires
        base >= 1,
        1 <= p.embedding_probe_factor <= 1000,
    ensures
        6 <= top_limit_of(p, base) <= 256,
        6 <= base * p.embedding_probe_factor <= 256 ==> top_limit_of(p, base) == base
            * p.embedding_probe_factor,
        base * p.embedding_probe_factor > 256 ==> top_limit_of(p, base) == 256,
        base * p.embedding_probe_factor < 6 ==> top_limit_of(p, base) == 6,
        top_limit_of(p, 0) == top_limit_of(p, 1),
{
}

/// The larger of two numbers is one of them and not less than either, and so with the smaller.
pub proof fn law_larger_smaller(a: int, b: int)
    ensures
        larger(a, b) >= a && larger(a, b) >= b && (larger(a, b) == a || larger(a, b) == b),
        smaller(a, b) <= a && smaller(a, b) <= b && (smaller(a, b) == a || smaller(a, b) == b),
{
}

/// A search takes the model that it names, where that is in the index; without a name it takes
/// the only one.
pub proof fn law_model_chosen(
    requested: Option<String>,
    available: &Vec<String>,
    answer: Result<String, ModelChoiceError>,
)
    requires
        call_ensures(resolve_requested_model, (requested, available), answer),
    ensures
        requested matches Some(q) ==> (answer is Ok <==> texts(available@).contains(q@)),
        requested matches Some(q) ==> (answer matches Ok(m) ==> m == q),
        requested is None ==> (answer is Ok <==> available@.len() == 1),
        requested is None ==> (answer matches Ok(m) ==> m == available@[0]),
        requested is None ==> (answer matches Err(e) ==> e is MultipleModels),
        requested is Some ==> (answer matches Err(e) ==> e is ModelNotFound),
{
}

} // verus!
