//! Cuts the snippets of a bundle to a token budget: first every snippet is offered as
//! a summary, then what is left of the budget buys excerpts, then full texts.

use vstd::prelude::*;
use crate::bundle::{
    BundleDefinition, BundleSnippet, BundleUsageStats, MIN_SUMMARY_TOKEN_FLOOR, SUMMARY_CHAR_LIMIT,
};
use crate::decimal::{decimal, decimal_of, push_decimal};
use crate::pieces::{lines_of, push_text, str_lines, texts};
use crate::sizes::{byte_length, utf8_size};
use crate::text::{chars_of, string_of, trim, trim_str, trimmed};
use vstd::slice::slice_subrange;

verus! {

/// The number of tokens that a text counts for: one for every four bytes, rounded up.
pub open spec fn tokens_of(s: Seq<char>) -> nat {
    (utf8_size(s) + 3) / 4
}

/// The number of tokens that a text counts for.
pub fn estimate_tokens(text: &str) -> (r: usize)
    ensures
        r == tokens_of(text@),
        r <= usize::MAX / 4 + 1,
{
    let n: usize = byte_length(text);
    if n % 4 == 0 {
        n / 4
    } else {
        n / 4 + 1
    }
}

/// The first `limit` characters of `s`.
pub open spec fn prefix_of(s: Seq<char>, limit: int) -> Seq<char> {
    if s.len() <= limit {
        s
    } else {
        s.take(limit)
    }
}

/// The first `limit` characters of a text.
pub fn truncate_to_char_limit(text: &str, limit: usize) -> (r: String)
    ensures
        r@ == prefix_of(text@, limit as int),
        r@.len() <= limit,
{
    let v = chars_of(text);
    if v.len() <= limit {
        string_of(v.as_slice())
    } else {
        let cut = slice_subrange(v.as_slice(), 0, limit);
        assert(cut@ =~= text@.take(limit as int));
        string_of(cut)
    }
}

/// The first line that is not blank.
pub open spec fn first_nonblank(ls: Seq<Seq<char>>) -> Option<Seq<char>>
    decreases ls.len(),
{
    if ls.len() == 0 {
        None
    } else if trimmed(ls[0]).len() > 0 {
        Some(ls[0])
    } else {
        first_nonblank(ls.drop_first())
    }
}

/// The position of the first line that is not blank.
fn find_nonblank(ls: &Vec<String>) -> (r: Option<usize>)
    ensures
        match r {
            Some(k) => k < ls@.len() && first_nonblank(texts(ls@)) == Some(ls@[k as int]@),
            None => first_nonblank(texts(ls@)) is None,
        },
{
    let mut i: usize = 0;
    assert(texts(ls@).skip(0) =~= texts(ls@));
    while i < ls.len()
        invariant
            i <= ls.len(),
            first_nonblank(texts(ls@).skip(i as int)) == first_nonblank(texts(ls@)),
        decreases ls.len() - i,
    {
        let line = trim_str(ls[i].as_str());
        assert(texts(ls@).skip(i as int)[0] == ls@[i as int]@);
        if line.as_str().unicode_len() > 0 {
            return Some(i);
        }
        assert(texts(ls@).skip(i as int).drop_first() =~= texts(ls@).skip(i + 1));
        i += 1;
    }
    None
}

/// The one-line description of a file: its first line that is not blank, cut short.
pub open spec fn brief_of(content: Seq<char>) -> Option<Seq<char>> {
    match first_nonblank(lines_of(content)) {
        Some(line) => Some(prefix_of(trimmed(line), SUMMARY_CHAR_LIMIT as int)),
        None => None,
    }
}

/// The one-line description of a file, or `None` where every line is blank.
pub fn build_file_brief(content: &str) -> (r: Option<String>)
    ensures
        match r {
            Some(b) => brief_of(content@) == Some(b@),
            None => brief_of(content@) is None,
        },
{
    let ls = str_lines(content);
    match find_nonblank(&ls) {
        Some(k) => {
            let line = trim_str(ls[k].as_str());
            Some(truncate_to_char_limit(line.as_str(), SUMMARY_CHAR_LIMIT))
        },
        None => None,
    }
}

/// The summary of a snippet: its first line that is not blank, cut short, with an
/// ellipsis where that is not the whole.
pub open spec fn summary_of(content: Seq<char>) -> Seq<char> {
    let t = trimmed(content);
    if t.len() == 0 {
        "Summary: (empty snippet)"@
    } else {
        let line = match first_nonblank(lines_of(t)) {
            Some(l) => l,
            None => t,
        };
        let cut = prefix_of(trimmed(line), SUMMARY_CHAR_LIMIT as int);
        "Summary: "@ + if utf8_size(cut) < utf8_size(t) {
            cut + " …"@
        } else {
            cut
        }
    }
}

/// The summary of a snippet.
pub fn build_summary_content(content: &str) -> (r: String)
    ensures
        r@ == summary_of(content@),
{
    let t = trim_str(content);
    if t.as_str().is_empty() {
        return "Summary: (empty snippet)".to_owned();
    }
    let ls = str_lines(t.as_str());
    let line = match find_nonblank(&ls) {
        Some(k) => trim_str(ls[k].as_str()),
        None => trim_str(t.as_str()),
    };
    let mut summary = truncate_to_char_limit(line.as_str(), SUMMARY_CHAR_LIMIT);
    if byte_length(summary.as_str()) < byte_length(t.as_str()) {
        summary.append(" …");
    }
    let mut out = "Summary: ".to_owned();
    out.append(summary.as_str());
    out
}

/// The most characters of an excerpt before its closing line.
pub const EXCERPT_CHAR_LIMIT: usize = 1_280;

/// The excerpt of a snippet: its first characters and a closing line, where it is
/// longer than that.
pub open spec fn excerpt_of(content: Seq<char>) -> Option<Seq<char>> {
    let t = trimmed(content);
    if t.len() <= EXCERPT_CHAR_LIMIT {
        None
    } else {
        let cut = t.take(EXCERPT_CHAR_LIMIT as int);
        let closed = if cut.last() == '\n' {
            cut
        } else {
            cut.push('\n')
        };
        Some(closed + "... (excerpt truncated)"@)
    }
}

/// The excerpt of a snippet, where it is longer than an excerpt.
pub fn build_excerpt_content(content: &str) -> (r: Option<String>)
    ensures
        match r {
            Some(e) => excerpt_of(content@) == Some(e@),
            None => excerpt_of(content@) is None,
        },
{
    let v = chars_of(content);
    let t = trim(v.as_slice());
    if t.len() <= EXCERPT_CHAR_LIMIT {
        return None;
    }
    let cut = slice_subrange(t, 0, EXCERPT_CHAR_LIMIT);
    assert(cut@ =~= t@.take(EXCERPT_CHAR_LIMIT as int));
    let mut excerpt = string_of(cut);
    if cut[cut.len() - 1] != '\n' {
        excerpt.push('\n');
    }
    excerpt.append("... (excerpt truncated)");
    Some(excerpt)
}

// ---------------------------------------------------------------------------
// The plan
// ---------------------------------------------------------------------------

/// How much of a snippet is returned.
#[derive(Debug, Clone, Copy, PartialEq, Eq, Structural)]
pub enum Stage {
    Omitted,
    Summary,
    Excerpt,
    Full,
}

/// What a snippet costs at each stage; an excerpt exists only of long snippets.
#[derive(Debug, Clone, Copy)]
pub struct StageCosts {
    pub summary: usize,
    pub excerpt: Option<usize>,
    pub full: usize,
}

/// What `content` costs at each stage.
pub open spec fn cost_of(content: Seq<char>) -> StageCosts {
    StageCosts {
        summary: (if tokens_of(summary_of(content)) < MIN_SUMMARY_TOKEN_FLOOR {
            MIN_SUMMARY_TOKEN_FLOOR as nat
        } else {
            tokens_of(summary_of(content))
        }) as usize,
        excerpt: match excerpt_of(content) {
            Some(e) => Some(tokens_of(e) as usize),
            None => None,
        },
        full: tokens_of(content) as usize,
    }
}

/// The cost of a stage, where the snippet has that stage.
pub open spec fn stage_tokens(c: StageCosts, stage: Stage) -> Option<usize> {
    match stage {
        Stage::Omitted => Some(0usize),
        Stage::Summary => Some(c.summary),
        Stage::Excerpt => c.excerpt,
        Stage::Full => Some(c.full),
    }
}

/// What moving from one stage to another costs, where it costs anything.
pub open spec fn upgrade_cost_of(c: StageCosts, from: Stage, to: Stage) -> Option<int> {
    match (stage_tokens(c, from), stage_tokens(c, to)) {
        (Some(a), Some(b)) => if b > a {
            Some(b - a)
        } else {
            None
        },
        _ => None,
    }
}

/// Whether a snippet at stage `from` is considered when `to` is offered.
pub open spec fn eligible(from: Stage, to: Stage) -> bool {
    if to == Stage::Excerpt {
        from == Stage::Summary
    } else {
        from != Stage::Omitted
    }
}

/// The summaries that fit, one snippet after the other, and the tokens then used.
pub open spec fn summary_pass(costs: Seq<StageCosts>, used: int, budget: int) -> (Seq<Stage>, int)
    decreases costs.len(),
{
    if costs.len() == 0 {
        (Seq::empty(), used)
    } else {
        let (stages, u) = summary_pass(costs.drop_last(), used, budget);
        let c = costs.last().summary;
        if u + c <= budget && c > 0 {
            (stages.push(Stage::Summary), u + c)
        } else {
            (stages.push(Stage::Omitted), u)
        }
    }
}

/// The upgrades to `to` that fit, one snippet after the other, and the tokens then
/// used.
pub open spec fn upgrade_pass(
    costs: Seq<StageCosts>,
    stages: Seq<Stage>,
    used: int,
    budget: int,
    to: Stage,
) -> (Seq<Stage>, int)
    decreases costs.len(),
{
    if costs.len() == 0 {
        (Seq::empty(), used)
    } else {
        let (done, u) = upgrade_pass(costs.drop_last(), stages.drop_last(), used, budget, to);
        let from = stages.last();
        match upgrade_cost_of(costs.last(), from, to) {
            Some(d) => if eligible(from, to) && u + d <= budget {
                (done.push(to), u + d)
            } else {
                (done.push(from), u)
            },
            None => (done.push(from), u),
        }
    }
}

/// The stage of each snippet and the tokens used, where `used` tokens are spent before.
pub open spec fn budget_plan(costs: Seq<StageCosts>, used: int, budget: int) -> (Seq<Stage>, int) {
    let (first, u1) = summary_pass(costs, used, budget);
    let (second, u2) = upgrade_pass(costs, first, u1, budget, Stage::Excerpt);
    upgrade_pass(costs, second, u2, budget, Stage::Full)
}

/// The tokens of the snippets at their stages.
pub open spec fn planned_tokens(costs: Seq<StageCosts>, stages: Seq<Stage>) -> int
    decreases costs.len(),
{
    if costs.len() == 0 || stages.len() != costs.len() {
        0
    } else {
        planned_tokens(costs.drop_last(), stages.drop_last()) + match stage_tokens(
            costs.last(),
            stages.last(),
        ) {
            Some(t) => t as int,
            None => 0,
        }
    }
}

/// Every snippet is at a stage that it has.
pub open spec fn stages_exist(costs: Seq<StageCosts>, stages: Seq<Stage>) -> bool {
    &&& stages.len() == costs.len()
    &&& forall|i: int| 0 <= i < costs.len() ==> stage_tokens(costs[i], #[trigger] stages[i]) is Some
}

proof fn lemma_summary_pass(costs: Seq<StageCosts>, used: int, budget: int)
    ensures
        summary_pass(costs, used, budget).0.len() == costs.len(),
        stages_exist(costs, summary_pass(costs, used, budget).0),
        used <= summary_pass(costs, used, budget).1,
        used <= budget ==> summary_pass(costs, used, budget).1 <= budget,
        used > budget ==> summary_pass(costs, used, budget).1 == used,
        used > budget ==> forall|i: int|
            0 <= i < costs.len() ==> #[trigger] summary_pass(costs, used, budget).0[i]
                == Stage::Omitted,
        summary_pass(costs, used, budget).1 == used + planned_tokens(
            costs,
            summary_pass(costs, used, budget).0,
        ),
    decreases costs.len(),
{
    if costs.len() > 0 {
        lemma_summary_pass(costs.drop_last(), used, budget);
        let (stages, u) = summary_pass(costs.drop_last(), used, budget);
        let (all, v) = summary_pass(costs, used, budget);
        assert(all.drop_last() =~= stages);
        assert forall|i: int| 0 <= i < costs.len() implies stage_tokens(
            costs[i],
            #[trigger] all[i],
        ) is Some by {
            if i < costs.len() - 1 {
                assert(all[i] == stages[i]);
                assert(costs.drop_last()[i] == costs[i]);
            }
        }
        if used > budget {
            assert forall|i: int| 0 <= i < costs.len() implies #[trigger] all[i]
                == Stage::Omitted by {
                if i < costs.len() - 1 {
                    assert(all[i] == stages[i]);
                }
            }
        }
    }
}

proof fn lemma_upgrade_pass(
    costs: Seq<StageCosts>,
    stages: Seq<Stage>,
    used: int,
    budget: int,
    to: Stage,
)
    requires
        stages_exist(costs, stages),
        to == Stage::Excerpt || to == Stage::Full,
    ensures
        upgrade_pass(costs, stages, used, budget, to).0.len() == costs.len(),
        stages_exist(costs, upgrade_pass(costs, stages, used, budget, to).0),
        used <= upgrade_pass(costs, stages, used, budget, to).1,
        used <= budget ==> upgrade_pass(costs, stages, used, budget, to).1 <= budget,
        upgrade_pass(costs, stages, used, budget, to).1 - used == planned_tokens(
            costs,
            upgrade_pass(costs, stages, used, budget, to).0,
        ) - planned_tokens(costs, stages),
        forall|i: int|
            0 <= i < costs.len() ==> {
                let new = #[trigger] upgrade_pass(costs, stages, used, budget, to).0[i];
                (new == stages[i] || new == to) && (stages[i] == Stage::Omitted <==> new
                    == Stage::Omitted)
            },
        used > budget ==> upgrade_pass(costs, stages, used, budget, to).1 == used,
    decreases costs.len(),
{
    if costs.len() > 0 {
        let c = costs.drop_last();
        let s = stages.drop_last();
        assert forall|i: int| 0 <= i < c.len() implies stage_tokens(
            c[i],
            #[trigger] s[i],
        ) is Some by {
            assert(s[i] == stages[i]);
        }
        lemma_upgrade_pass(c, s, used, budget, to);
        let (done, u) = upgrade_pass(c, s, used, budget, to);
        let (all, v) = upgrade_pass(costs, stages, used, budget, to);
        assert(all.drop_last() =~= done);
        assert(stage_tokens(costs.last(), stages.last()) is Some);
        assert forall|i: int| 0 <= i < costs.len() implies stage_tokens(
            costs[i],
            #[trigger] all[i],
        ) is Some && (all[i] == stages[i] || all[i] == to) && (stages[i] == Stage::Omitted
            <==> all[i] == Stage::Omitted) by {
            if i < costs.len() - 1 {
                assert(all[i] == done[i]);
                assert(c[i] == costs[i]);
                assert(s[i] == stages[i]);
            }
        }
    }
}

/// The tokens used are those spent before plus those of the snippets as returned.
/// Where what was spent before fits in the budget, the whole does; where it does not,
/// every snippet is left out.
pub proof fn law_budget_kept(costs: Seq<StageCosts>, used: int, budget: int)
    ensures
        budget_plan(costs, used, budget).0.len() == costs.len(),
        stages_exist(costs, budget_plan(costs, used, budget).0),
        used <= budget_plan(costs, used, budget).1,
        used <= budget ==> budget_plan(costs, used, budget).1 <= budget,
        used > budget ==> budget_plan(costs, used, budget).1 == used,
        used > budget ==> forall|i: int|
            0 <= i < costs.len() ==> #[trigger] budget_plan(costs, used, budget).0[i]
                == Stage::Omitted,
        budget_plan(costs, used, budget).1 == used + planned_tokens(
            costs,
            budget_plan(costs, used, budget).0,
        ),
{
    lemma_summary_pass(costs, used, budget);
    let (first, u1) = summary_pass(costs, used, budget);
    lemma_upgrade_pass(costs, first, u1, budget, Stage::Excerpt);
    let (second, u2) = upgrade_pass(costs, first, u1, budget, Stage::Excerpt);
    lemma_upgrade_pass(costs, second, u2, budget, Stage::Full);
    if used > budget {
        let last = budget_plan(costs, used, budget).0;
        assert forall|i: int| 0 <= i < costs.len() implies #[trigger] last[i]
            == Stage::Omitted by {
            assert(first[i] == Stage::Omitted);
            assert(second[i] == Stage::Omitted);
        }
    }
}

/// Where the budget holds the full text of every snippet, nothing is left out and
/// nothing is cut short, except where the full text costs no more than what is shown.
pub proof fn law_ample_budget(costs: Seq<StageCosts>, used: int, budget: int, i: int)
    requires
        0 <= i < costs.len(),
        used >= 0,
        forall|k: int| 0 <= k < costs.len() ==> (#[trigger] costs[k]).summary > 0,
        used + ample_tokens(costs) <= budget,
    ensures
        budget_plan(costs, used, budget).0[i] == Stage::Full || costs[i].full <= costs[i].summary
            || (costs[i].excerpt is Some && costs[i].full <= costs[i].excerpt->0),
{
    lemma_ample_summaries(costs, used, budget);
    lemma_summary_pass(costs, used, budget);
    let (first, u1) = summary_pass(costs, used, budget);
    lemma_upgrade_pass(costs, first, u1, budget, Stage::Excerpt);
    let (second, u2) = upgrade_pass(costs, first, u1, budget, Stage::Excerpt);
    lemma_upgrade_pass(costs, second, u2, budget, Stage::Full);
    lemma_planned_at_most(costs, second);
    lemma_ample_upgrades(costs, second, u2, budget);
    assert(first[i] == Stage::Summary);
    assert(second[i] != Stage::Omitted);
}

/// The tokens of every snippet at its most expensive stage.
pub open spec fn ample_tokens(costs: Seq<StageCosts>) -> int
    decreases costs.len(),
{
    if costs.len() == 0 {
        0
    } else {
        ample_tokens(costs.drop_last()) + dearest(costs.last())
    }
}

/// The cost of the most expensive stage of a snippet.
pub open spec fn dearest(c: StageCosts) -> int {
    let e = match c.excerpt {
        Some(t) => t as int,
        None => 0,
    };
    let m = if c.summary > c.full {
        c.summary as int
    } else {
        c.full as int
    };
    if e > m {
        e
    } else {
        m
    }
}

proof fn lemma_planned_at_most(costs: Seq<StageCosts>, stages: Seq<Stage>)
    requires
        stages.len() == costs.len(),
    ensures
        planned_tokens(costs, stages) <= ample_tokens(costs),
    decreases costs.len(),
{
    if costs.len() > 0 {
        lemma_planned_at_most(costs.drop_last(), stages.drop_last());
    }
}

proof fn lemma_ample_summaries(costs: Seq<StageCosts>, used: int, budget: int)
    requires
        used + ample_tokens(costs) <= budget,
        forall|k: int| 0 <= k < costs.len() ==> (#[trigger] costs[k]).summary > 0,
    ensures
        summary_pass(costs, used, budget).1 <= used + ample_tokens(costs),
        forall|i: int|
            0 <= i < costs.len() ==> #[trigger] summary_pass(costs, used, budget).0[i]
                == Stage::Summary,
    decreases costs.len(),
{
    if costs.len() > 0 {
        let c = costs.drop_last();
        assert forall|k: int| 0 <= k < c.len() implies (#[trigger] c[k]).summary > 0 by {
            assert(c[k] == costs[k]);
        }
        assert(costs.last() == costs[costs.len() - 1]);
        lemma_ample_summaries(c, used, budget);
        lemma_summary_pass(c, used, budget);
        let (stages, u) = summary_pass(c, used, budget);
        let (all, v) = summary_pass(costs, used, budget);
        assert forall|i: int| 0 <= i < costs.len() implies #[trigger] all[i] == Stage::Summary by {
            if i < costs.len() - 1 {
                assert(all[i] == stages[i]);
            }
        }
    }
}

proof fn lemma_ample_upgrades(
    costs: Seq<StageCosts>,
    stages: Seq<Stage>,
    used: int,
    budget: int,
)
    requires
        stages_exist(costs, stages),
        used - planned_tokens(costs, stages) + ample_tokens(costs) <= budget,
    ensures
        forall|i: int|
            0 <= i < costs.len() && stages[i] != Stage::Omitted ==> {
                let new = #[trigger] upgrade_pass(costs, stages, used, budget, Stage::Full).0[i];
                new == Stage::Full || costs[i].full <= stage_tokens(costs[i], stages[i])->0
            },
    decreases costs.len(),
{
    if costs.len() > 0 {
        let c = costs.drop_last();
        let s = stages.drop_last();
        assert forall|i: int| 0 <= i < c.len() implies stage_tokens(
            c[i],
            #[trigger] s[i],
        ) is Some by {
            assert(s[i] == stages[i]);
        }
        assert(stage_tokens(costs.last(), stages.last()) is Some);
        lemma_ample_upgrades(c, s, used, budget);
        lemma_upgrade_pass(c, s, used, budget, Stage::Full);
        let (done, u) = upgrade_pass(c, s, used, budget, Stage::Full);
        lemma_planned_at_most(c, done);
        let (all, v) = upgrade_pass(costs, stages, used, budget, Stage::Full);
        assert forall|i: int| 0 <= i < costs.len() && stages[i] != Stage::Omitted implies {
            let new = #[trigger] all[i];
            new == Stage::Full || costs[i].full <= stage_tokens(costs[i], stages[i])->0
        } by {
            if i < costs.len() - 1 {
                assert(all[i] == done[i]);
                assert(c[i] == costs[i]);
                assert(s[i] == stages[i]);
            }
        }
    }
}

// ---------------------------------------------------------------------------
// The cut
// ---------------------------------------------------------------------------

/// The cost of a definition: its name, signature and documentation.
pub open spec fn definition_tokens(d: BundleDefinition) -> nat {
    tokens_of(d.name@) + (match d.signature {
        Some(s) => tokens_of(s@),
        None => 0,
    }) + (match d.docstring {
        Some(s) => tokens_of(s@),
        None => 0,
    })
}

/// The cost of the definitions.
pub open spec fn definitions_tokens_of(ds: Seq<BundleDefinition>) -> nat
    decreases ds.len(),
{
    if ds.len() == 0 {
        0
    } else {
        definitions_tokens_of(ds.drop_last()) + definition_tokens(ds.last())
    }
}

proof fn lemma_definitions_prefix(ds: Seq<BundleDefinition>, i: int)
    requires
        0 <= i <= ds.len(),
    ensures
        definitions_tokens_of(ds.take(i)) <= definitions_tokens_of(ds),
    decreases ds.len() - i,
{
    if i == ds.len() {
        assert(ds.take(i) =~= ds);
    } else {
        lemma_definitions_prefix(ds, i + 1);
        assert(ds.take(i + 1).drop_last() =~= ds.take(i));
    }
}

/// The cost of the definitions, where it fits in `usize`.
pub fn definition_token_cost(definitions: &[BundleDefinition]) -> (r: usize)
    requires
        definitions_tokens_of(definitions@) <= usize::MAX,
    ensures
        r == definitions_tokens_of(definitions@),
{
    let mut total: usize = 0;
    let mut i: usize = 0;
    assert(definitions@.take(0) =~= Seq::<BundleDefinition>::empty());
    while i < definitions.len()
        invariant
            i <= definitions.len(),
            definitions_tokens_of(definitions@) <= usize::MAX,
            total == definitions_tokens_of(definitions@.take(i as int)),
        decreases definitions.len() - i,
    {
        proof {
            lemma_definitions_prefix(definitions@, i + 1);
            assert(definitions@.take(i + 1).drop_last() =~= definitions@.take(i as int));
            assert(definitions@.take(i + 1).last() == definitions@[i as int]);
        }
        let d = &definitions[i];
        total += estimate_tokens(d.name.as_str());
        if let Some(signature) = &d.signature {
            total += estimate_tokens(signature.as_str());
        }
        if let Some(docstring) = &d.docstring {
            total += estimate_tokens(docstring.as_str());
        }
        i += 1;
    }
    assert(definitions@.take(i as int) =~= definitions@);
    total
}

/// What the snippets cost at each stage.
pub open spec fn costs_of(snippets: Seq<BundleSnippet>) -> Seq<StageCosts> {
    Seq::new(snippets.len(), |i: int| cost_of(snippets[i].content@))
}

/// What the snippets cost at each stage.
pub fn snippet_costs(snippets: &[BundleSnippet]) -> (r: Vec<StageCosts>)
    ensures
        r@ == costs_of(snippets@),
        forall|i: int| 0 <= i < r@.len() ==> (#[trigger] r@[i]).summary > 0,
{
    let mut out: Vec<StageCosts> = Vec::new();
    let mut i: usize = 0;
    while i < snippets.len()
        invariant
            i <= snippets.len(),
            out@.len() == i,
            forall|k: int|
                0 <= k < i ==> #[trigger] out@[k] == cost_of(snippets@[k].content@)
                    && out@[k].summary > 0,
        decreases snippets.len() - i,
    {
        let content = snippets[i].content.as_str();
        let summary_content = build_summary_content(content);
        let counted: usize = estimate_tokens(summary_content.as_str());
        let summary: usize = if counted < MIN_SUMMARY_TOKEN_FLOOR {
            MIN_SUMMARY_TOKEN_FLOOR
        } else {
            counted
        };
        let excerpt: Option<usize> = match build_excerpt_content(content) {
            Some(text) => Some(estimate_tokens(text.as_str())),
            None => None,
        };
        let full: usize = estimate_tokens(content);
        out.push(StageCosts { summary, excerpt, full });
        i += 1;
    }
    assert(out@ =~= costs_of(snippets@));
    out
}

/// What moving from one stage to another costs, where it costs anything.
fn upgrade_cost(c: &StageCosts, from: Stage, to: Stage) -> (r: Option<usize>)
    ensures
        match r {
            Some(d) => upgrade_cost_of(*c, from, to) == Some(d as int),
            None => upgrade_cost_of(*c, from, to) is None,
        },
{
    let a = tokens_for_stage(c, from);
    let b = tokens_for_stage(c, to);
    match (a, b) {
        (Some(x), Some(y)) => if y > x {
            Some(y - x)
        } else {
            None
        },
        _ => None,
    }
}

/// The cost of a stage, where the snippet has that stage.
fn tokens_for_stage(c: &StageCosts, stage: Stage) -> (r: Option<usize>)
    ensures
        r == stage_tokens(*c, stage),
{
    match stage {
        Stage::Omitted => Some(0),
        Stage::Summary => Some(c.summary),
        Stage::Excerpt => c.excerpt,
        Stage::Full => Some(c.full),
    }
}

/// The stage of each snippet and the tokens used, where `used` tokens are spent before.
pub fn plan_budget(costs: &[StageCosts], used: usize, budget: usize) -> (r: (Vec<Stage>, usize))
    ensures
        (r.0@, r.1 as int) == budget_plan(costs@, used as int, budget as int),
        r.0@.len() == costs@.len(),
{
    let mut first: Vec<Stage> = Vec::new();
    let mut u: usize = used;
    let mut i: usize = 0;
    assert(costs@.take(0) =~= Seq::<StageCosts>::empty());
    while i < costs.len()
        invariant
            i <= costs.len(),
            (first@, u as int) == summary_pass(costs@.take(i as int), used as int, budget as int),
        decreases costs.len() - i,
    {
        proof {
            assert(costs@.take(i + 1).drop_last() =~= costs@.take(i as int));
            assert(costs@.take(i + 1).last() == costs@[i as int]);
        }
        let c: usize = costs[i].summary;
        if u <= budget && c <= budget - u && c > 0 {
            u += c;
            first.push(Stage::Summary);
        } else {
            first.push(Stage::Omitted);
        }
        i += 1;
    }
    assert(costs@.take(i as int) =~= costs@);
    proof {
        lemma_summary_pass(costs@, used as int, budget as int);
    }
    let (second, u2) = run_upgrades(costs, first.as_slice(), u, budget, Stage::Excerpt);
    proof {
        lemma_upgrade_pass(costs@, first@, u as int, budget as int, Stage::Excerpt);
    }
    let (third, u3) = run_upgrades(costs, second.as_slice(), u2, budget, Stage::Full);
    proof {
        lemma_upgrade_pass(costs@, second@, u2 as int, budget as int, Stage::Full);
    }
    (third, u3)
}

/// The upgrades to `to` that fit.
fn run_upgrades(
    costs: &[StageCosts],
    stages: &[Stage],
    used: usize,
    budget: usize,
    to: Stage,
) -> (r: (Vec<Stage>, usize))
    requires
        stages@.len() == costs@.len(),
    ensures
        (r.0@, r.1 as int) == upgrade_pass(costs@, stages@, used as int, budget as int, to),
{
    let mut out: Vec<Stage> = Vec::new();
    let mut u: usize = used;
    let mut i: usize = 0;
    assert(costs@.take(0) =~= Seq::<StageCosts>::empty());
    while i < costs.len()
        invariant
            i <= costs.len(),
            stages@.len() == costs@.len(),
            (out@, u as int) == upgrade_pass(
                costs@.take(i as int),
                stages@.take(i as int),
                used as int,
                budget as int,
                to,
            ),
        decreases costs.len() - i,
    {
        proof {
            assert(costs@.take(i + 1).drop_last() =~= costs@.take(i as int));
            assert(costs@.take(i + 1).last() == costs@[i as int]);
            assert(stages@.take(i + 1).drop_last() =~= stages@.take(i as int));
            assert(stages@.take(i + 1).last() == stages@[i as int]);
        }
        let from = stages[i];
        let considered = if to == Stage::Excerpt {
            from == Stage::Summary
        } else {
            from != Stage::Omitted
        };
        let mut next = from;
        if considered {
            if let Some(d) = upgrade_cost(&costs[i], from, to) {
                if u <= budget && d <= budget - u {
                    u += d;
                    next = to;
                }
            }
        }
        out.push(next);
        i += 1;
    }
    assert(costs@.take(i as int) =~= costs@);
    assert(stages@.take(i as int) =~= stages@);
    (out, u)
}

/// The text of a snippet at a stage.
pub open spec fn content_at(content: Seq<char>, stage: Stage) -> Seq<char> {
    match stage {
        Stage::Omitted => Seq::empty(),
        Stage::Summary => summary_of(content),
        Stage::Excerpt => match excerpt_of(content) {
            Some(e) => e,
            None => content,
        },
        Stage::Full => content,
    }
}

/// `b` is the snippet `a` as it is returned at `stage`: everything but the text and the
/// embedding is kept.
pub open spec fn returned_as(b: BundleSnippet, a: BundleSnippet, stage: Stage) -> bool {
    &&& b.content@ == content_at(a.content@, stage)
    &&& b == BundleSnippet { content: b.content, embedding: None, ..a }
}

/// The positions of the snippets that are not left out.
pub open spec fn kept_positions(stages: Seq<Stage>) -> Seq<int>
    decreases stages.len(),
{
    if stages.len() == 0 {
        Seq::empty()
    } else if stages.last() == Stage::Omitted {
        kept_positions(stages.drop_last())
    } else {
        kept_positions(stages.drop_last()).push(stages.len() - 1)
    }
}

/// How many snippets are at a stage.
pub open spec fn count_stage(stages: Seq<Stage>, stage: Stage) -> nat
    decreases stages.len(),
{
    if stages.len() == 0 {
        0
    } else {
        count_stage(stages.drop_last(), stage) + if stages.last() == stage {
            1nat
        } else {
            0nat
        }
    }
}

/// `result` holds the snippets that the plan keeps, in their order.
pub open spec fn kept_snippets(
    result: Seq<BundleSnippet>,
    snippets: Seq<BundleSnippet>,
    stages: Seq<Stage>,
) -> bool {
    let kept = kept_positions(stages);
    &&& result.len() == kept.len()
    &&& forall|k: int|
        0 <= k < kept.len() ==> returned_as(
            #[trigger] result[k],
            snippets[kept[k]],
            stages[kept[k]],
        )
}

/// The positions kept are increasing positions of the plan, and as many as are not
/// left out.
pub proof fn law_kept_in_order(stages: Seq<Stage>)
    ensures
        forall|k: int|
            0 <= k < kept_positions(stages).len() ==> 0 <= #[trigger] kept_positions(stages)[k]
                < stages.len() && stages[kept_positions(stages)[k]] != Stage::Omitted,
        forall|j: int, k: int|
            0 <= j < k < kept_positions(stages).len() ==> kept_positions(stages)[j]
                < kept_positions(stages)[k],
        kept_positions(stages).len() + count_stage(stages, Stage::Omitted) == stages.len(),
        count_stage(stages, Stage::Omitted) + count_stage(stages, Stage::Summary) + count_stage(
            stages,
            Stage::Excerpt,
        ) + count_stage(stages, Stage::Full) == stages.len(),
    decreases stages.len(),
{
    if stages.len() > 0 {
        law_kept_in_order(stages.drop_last());
        let rest = kept_positions(stages.drop_last());
        assert forall|k: int| 0 <= k < kept_positions(stages).len() implies 0
            <= #[trigger] kept_positions(stages)[k] < stages.len()
            && stages[kept_positions(stages)[k]] != Stage::Omitted by {
            if k < rest.len() {
                assert(kept_positions(stages)[k] == rest[k]);
                assert(stages.drop_last()[rest[k]] == stages[rest[k]]);
            }
        }
        assert forall|j: int, k: int| 0 <= j < k < kept_positions(stages).len() implies kept_positions(
            stages,
        )[j] < kept_positions(stages)[k] by {
            assert(kept_positions(stages)[j] == rest[j]);
            if k < rest.len() {
                assert(kept_positions(stages)[k] == rest[k]);
            }
        }
    }
}

/// The warning where the definitions alone are over the budget.
pub open spec fn over_budget_warning(cost: nat, budget: nat) -> Seq<char> {
    "Definition metadata consumes "@ + decimal(cost) + " tokens which already exceeds the "@
        + decimal(budget) + " token budget; snippet content may be omitted."@
}

/// The warning that snippets were left out.
pub open spec fn omitted_warning(count: nat, budget: nat) -> Seq<char> {
    decimal(count) + " snippet(s) omitted due to the "@ + decimal(budget)
        + " token budget; request additional budgetTokens for more detail."@
}

/// The warning that snippets were cut to excerpts.
pub open spec fn excerpt_warning(count: nat) -> Seq<char> {
    decimal(count)
        + " snippet(s) returned as focused excerpts because the full content would exceed the token budget."@
}

/// The warning that snippets were cut to summaries.
pub open spec fn summary_warning(count: nat) -> Seq<char> {
    decimal(count)
        + " snippet(s) returned as summaries; increase budgetTokens or narrow ranges for full context."@
}

/// The line that says how the budget was spent.
pub open spec fn usage_line(cost: nat, snippets: nat, used: nat, budget: nat, left: nat) -> Seq<
    char,
> {
    "Token usage: definitions "@ + decimal(cost) + " + snippets "@ + decimal(snippets) + " = "@
        + decimal(used) + " of "@ + decimal(budget) + " ("@ + decimal(left) + " unused)."@
}

/// `s` with `w` behind it where `condition` holds.
pub open spec fn push_if(s: Seq<Seq<char>>, condition: bool, w: Seq<char>) -> Seq<Seq<char>> {
    if condition {
        s.push(w)
    } else {
        s
    }
}

/// What of the budget is left, or nothing where it is overspent.
pub open spec fn unused(budget: int, used: int) -> int {
    if used >= budget {
        0
    } else {
        budget - used
    }
}

/// The warnings of a cut.
pub open spec fn cut_warnings(cost: nat, budget: nat, used: nat, stages: Seq<Stage>) -> Seq<
    Seq<char>,
> {
    let omitted = count_stage(stages, Stage::Omitted);
    let excerpts = count_stage(stages, Stage::Excerpt);
    let summaries = count_stage(stages, Stage::Summary);
    let w0 = push_if(Seq::empty(), cost > budget, over_budget_warning(cost, budget));
    let w1 = push_if(w0, omitted > 0, omitted_warning(omitted, budget));
    let w2 = push_if(w1, excerpts > 0, excerpt_warning(excerpts));
    let w3 = push_if(w2, summaries > 0, summary_warning(summaries));
    push_if(
        w3,
        budget > 0,
        usage_line(
            cost,
            (used - cost) as nat,
            used,
            budget,
            unused(budget as int, used as int) as nat,
        ),
    )
}

proof fn lemma_stage_counted(stages: Seq<Stage>, i: int)
    requires
        0 <= i < stages.len(),
    ensures
        count_stage(stages, stages[i]) > 0,
    decreases stages.len(),
{
    if i < stages.len() - 1 {
        assert(stages.drop_last()[i] == stages[i]);
        lemma_stage_counted(stages.drop_last(), i);
    }
}

/// Whoever gets a bundle is told of every cut: of snippets that are left out, and of those
/// that are shown as an excerpt or as a summary.
pub proof fn law_cut_is_told(cost: nat, budget: nat, used: nat, stages: Seq<Stage>, i: int)
    requires
        0 <= i < stages.len(),
    ensures
        stages[i] == Stage::Omitted ==> cut_warnings(cost, budget, used, stages).contains(
            omitted_warning(count_stage(stages, Stage::Omitted), budget),
        ),
        stages[i] == Stage::Excerpt ==> cut_warnings(cost, budget, used, stages).contains(
            excerpt_warning(count_stage(stages, Stage::Excerpt)),
        ),
        stages[i] == Stage::Summary ==> cut_warnings(cost, budget, used, stages).contains(
            summary_warning(count_stage(stages, Stage::Summary)),
        ),
{
    lemma_stage_counted(stages, i);
    let omitted = count_stage(stages, Stage::Omitted);
    let excerpts = count_stage(stages, Stage::Excerpt);
    let w0 = push_if(Seq::empty(), cost > budget, over_budget_warning(cost, budget));
    let w1 = push_if(w0, omitted > 0, omitted_warning(omitted, budget));
    let w2 = push_if(w1, excerpts > 0, excerpt_warning(excerpts));
    let all = cut_warnings(cost, budget, used, stages);
    if stages[i] == Stage::Omitted {
        assert(all[w0.len() as int] == omitted_warning(omitted, budget));
    }
    if stages[i] == Stage::Excerpt {
        assert(all[w1.len() as int] == excerpt_warning(excerpts));
    }
    if stages[i] == Stage::Summary {
        assert(all[w2.len() as int] == summary_warning(count_stage(stages, Stage::Summary)));
    }
}

/// How a cut reports what it used. A budget of zero reports the tokens used alone.
pub open spec fn cut_usage(cost: int, budget: int, used: int, stages: Seq<Stage>) -> BundleUsageStats {
    BundleUsageStats {
        definitions_tokens: cost as usize,
        snippet_tokens: if budget > 0 {
            (used - cost) as usize
        } else {
            0
        },
        used_tokens: used as usize,
        budget_tokens: budget as usize,
        remaining_tokens: if budget > 0 {
            unused(budget, used) as usize
        } else {
            0
        },
        omitted_snippets: count_stage(stages, Stage::Omitted) as usize,
        excerpt_snippets: count_stage(stages, Stage::Excerpt) as usize,
        summary_snippets: count_stage(stages, Stage::Summary) as usize,
        cache_hit: false,
    }
}

/// How many snippets are at a stage.
fn count_at(stages: &[Stage], stage: Stage) -> (r: usize)
    ensures
        r == count_stage(stages@, stage),
        r <= stages@.len(),
{
    let mut n: usize = 0;
    let mut i: usize = 0;
    assert(stages@.take(0) =~= Seq::<Stage>::empty());
    while i < stages.len()
        invariant
            i <= stages.len(),
            n <= i,
            n == count_stage(stages@.take(i as int), stage),
        decreases stages.len() - i,
    {
        assert(stages@.take(i + 1).drop_last() =~= stages@.take(i as int));
        assert(stages@.take(i + 1).last() == stages@[i as int]);
        if stages[i] == stage {
            n += 1;
        }
        i += 1;
    }
    assert(stages@.take(i as int) =~= stages@);
    n
}

/// The snippet as it is returned at a stage.
fn finalize(snippet: BundleSnippet, stage: Stage) -> (r: BundleSnippet)
    requires
        stage != Stage::Omitted,
    ensures
        returned_as(r, snippet, stage),
{
    let mut snippet = snippet;
    let ghost before = snippet;
    match stage {
        Stage::Summary => {
            let text = build_summary_content(snippet.content.as_str());
            snippet.content = text;
        },
        Stage::Excerpt => {
            if let Some(text) = build_excerpt_content(snippet.content.as_str()) {
                snippet.content = text;
            }
        },
        _ => {},
    }
    snippet.embedding = None;
    snippet
}

/// The snippets that the plan keeps, each at its stage.
fn apply_plan(snippets: Vec<BundleSnippet>, stages: &[Stage]) -> (r: Vec<BundleSnippet>)
    requires
        snippets@.len() == stages@.len(),
    ensures
        kept_snippets(r@, snippets@, stages@),
{
    let mut out: Vec<BundleSnippet> = Vec::new();
    let mut i: usize = 0;
    let ghost all = snippets@;
    assert(stages@.take(0) =~= Seq::<Stage>::empty());
    for snippet in it: snippets
        invariant
            i == it.index(),
            it.seq() == all,
            all.len() == stages@.len(),
            kept_snippets(out@, all, stages@.take(i as int)),
    {
        let ghost before = out@;
        proof {
            assert(stages@.take(i + 1).drop_last() =~= stages@.take(i as int));
            assert(stages@.take(i + 1).last() == stages@[i as int]);
            law_kept_in_order(stages@.take(i as int));
            law_kept_in_order(stages@.take(i + 1));
        }
        if stages[i] != Stage::Omitted {
            let done = finalize(snippet, stages[i]);
            out.push(done);
        }
        proof {
            let kept = kept_positions(stages@.take(i + 1));
            let was = kept_positions(stages@.take(i as int));
            assert forall|k: int| 0 <= k < kept.len() implies returned_as(
                #[trigger] out@[k],
                all[kept[k]],
                stages@.take(i + 1)[kept[k]],
            ) by {
                if k < was.len() {
                    assert(out@[k] == before[k]);
                    assert(kept[k] == was[k]);
                    assert(stages@.take(i as int)[was[k]] == stages@.take(i + 1)[was[k]]);
                }
            }
        }
        i += 1;
    }
    assert(stages@.take(i as int) =~= stages@);
    out
}

/// Cuts the snippets to the budget: the snippets that are kept, how the budget was
/// spent, and what to tell the caller. Without snippets there are no warnings.
pub fn trim_snippets_to_budget(
    snippets: Vec<BundleSnippet>,
    definitions: &[BundleDefinition],
    budget_tokens: usize,
) -> (r: (Vec<BundleSnippet>, BundleUsageStats, Vec<String>))
    requires
        definitions_tokens_of(definitions@) <= usize::MAX,
    ensures
        ({
            let cost = definitions_tokens_of(definitions@);
            let (stages, used) = budget_plan(
                costs_of(snippets@),
                cost as int,
                budget_tokens as int,
            );
            &&& kept_snippets(r.0@, snippets@, stages)
            &&& snippets@.len() > 0 ==> r.1 == cut_usage(
                cost as int,
                budget_tokens as int,
                used,
                stages,
            )
            &&& snippets@.len() > 0 ==> texts(r.2@) == cut_warnings(
                cost,
                budget_tokens as nat,
                used as nat,
                stages,
            )
        }),
        snippets@.len() == 0 ==> r.0@.len() == 0 && r.2@.len() == 0 && r.1 == (BundleUsageStats {
            definitions_tokens: definitions_tokens_of(definitions@) as usize,
            snippet_tokens: 0,
            used_tokens: definitions_tokens_of(definitions@) as usize,
            budget_tokens,
            remaining_tokens: unused(
                budget_tokens as int,
                definitions_tokens_of(definitions@) as int,
            ) as usize,
            omitted_snippets: 0,
            excerpt_snippets: 0,
            summary_snippets: 0,
            cache_hit: false,
        }),
{
    let cost: usize = definition_token_cost(definitions);
    let ghost all = snippets@;
    let costs = snippet_costs(snippets.as_slice());
    let (stages, used) = plan_budget(costs.as_slice(), cost, budget_tokens);
    proof {
        law_budget_kept(costs@, cost as int, budget_tokens as int);
    }
    let left: usize = if used >= budget_tokens {
        0
    } else {
        budget_tokens - used
    };
    let empty = snippets.len() == 0;
    let selected = apply_plan(snippets, stages.as_slice());
    if empty {
        proof {
            law_kept_in_order(stages@);
            assert(planned_tokens(costs@, stages@) == 0);
        }
        let usage = BundleUsageStats {
            definitions_tokens: cost,
            snippet_tokens: 0,
            used_tokens: cost,
            budget_tokens,
            remaining_tokens: left,
            omitted_snippets: 0,
            excerpt_snippets: 0,
            summary_snippets: 0,
            cache_hit: false,
        };
        return (selected, usage, Vec::new());
    }
    let omitted: usize = count_at(stages.as_slice(), Stage::Omitted);
    let excerpts: usize = count_at(stages.as_slice(), Stage::Excerpt);
    let summaries: usize = count_at(stages.as_slice(), Stage::Summary);
    let mut warnings: Vec<String> = Vec::new();
    assert(texts(warnings@) =~= Seq::<Seq<char>>::empty());
    if cost > budget_tokens {
        let mut w = "Definition metadata consumes ".to_owned();
        push_decimal(&mut w, cost as u64);
        w.append(" tokens which already exceeds the ");
        push_decimal(&mut w, budget_tokens as u64);
        w.append(" token budget; snippet content may be omitted.");
        push_text(&mut warnings, w);
    }
    if omitted > 0 {
        let mut w = decimal_of(omitted as u64);
        w.append(" snippet(s) omitted due to the ");
        push_decimal(&mut w, budget_tokens as u64);
        w.append(" token budget; request additional budgetTokens for more detail.");
        push_text(&mut warnings, w);
    }
    if excerpts > 0 {
        let mut w = decimal_of(excerpts as u64);
        w.append(
            " snippet(s) returned as focused excerpts because the full content would exceed the token budget.",
        );
        push_text(&mut warnings, w);
    }
    if summaries > 0 {
        let mut w = decimal_of(summaries as u64);
        w.append(
            " snippet(s) returned as summaries; increase budgetTokens or narrow ranges for full context.",
        );
        push_text(&mut warnings, w);
    }
    let snippet_tokens: usize = used - cost;
    if budget_tokens > 0 {
        let mut w = "Token usage: definitions ".to_owned();
        push_decimal(&mut w, cost as u64);
        w.append(" + snippets ");
        push_decimal(&mut w, snippet_tokens as u64);
        w.append(" = ");
        push_decimal(&mut w, used as u64);
        w.append(" of ");
        push_decimal(&mut w, budget_tokens as u64);
        w.append(" (");
        push_decimal(&mut w, left as u64);
        w.append(" unused).");
        push_text(&mut warnings, w);
    }
    let usage = BundleUsageStats {
        definitions_tokens: cost,
        snippet_tokens: if budget_tokens > 0 {
            snippet_tokens
        } else {
            0
        },
        used_tokens: used,
        budget_tokens,
        remaining_tokens: if budget_tokens > 0 {
            left
        } else {
            0
        },
        omitted_snippets: omitted,
        excerpt_snippets: excerpts,
        summary_snippets: summaries,
        cache_hit: false,
    };
    (selected, usage, warnings)
}

// ---------------------------------------------------------------------------
// What holds of the texts and of the plan
// ---------------------------------------------------------------------------

/// A token stands for four bytes, and the last of them for what is left.
pub proof fn law_tokens(s: Seq<char>)
    ensures
        4 * tokens_of(s) >= utf8_size(s),
        4 * tokens_of(s) < utf8_size(s) + 4,
{
}

/// A text is cut short to a prefix that has the wanted length, or is the whole text.
pub proof fn law_prefix(s: Seq<char>, limit: int)
    requires
        limit >= 0,
    ensures
        prefix_of(s, limit).is_prefix_of(s),
        prefix_of(s, limit).len() == if s.len() <= limit {
            s.len() as int
        } else {
            limit
        },
{
}

/// The line that is found says something, and every line in front of it is blank. Where
/// none is found, all are blank.
pub proof fn law_first_nonblank(ls: Seq<Seq<char>>)
    ensures
        first_nonblank(ls) matches Some(line) ==> trimmed(line).len() > 0,
        first_nonblank(ls) matches Some(line) ==> exists|k: int|
            0 <= k < ls.len() && #[trigger] ls[k] == line && forall|j: int|
                0 <= j < k ==> trimmed(#[trigger] ls[j]).len() == 0,
        first_nonblank(ls) is None ==> forall|j: int|
            0 <= j < ls.len() ==> trimmed(#[trigger] ls[j]).len() == 0,
    decreases ls.len(),
{
    if ls.len() > 0 && trimmed(ls[0]).len() == 0 {
        let rest = ls.drop_first();
        law_first_nonblank(rest);
        if let Some(line) = first_nonblank(rest) {
            let k = choose|k: int|
                0 <= k < rest.len() && #[trigger] rest[k] == line && forall|j: int|
                    0 <= j < k ==> trimmed(#[trigger] rest[j]).len() == 0;
            assert(ls[k + 1] == line);
            assert forall|j: int| 0 <= j < k + 1 implies trimmed(#[trigger] ls[j]).len() == 0 by {
                if j > 0 {
                    assert(rest[j - 1] == ls[j]);
                }
            }
        } else {
            assert forall|j: int| 0 <= j < ls.len() implies trimmed(#[trigger] ls[j]).len() == 0 by {
                if j > 0 {
                    assert(rest[j - 1] == ls[j]);
                }
            }
        }
    } else if ls.len() > 0 {
        assert(ls[0] == first_nonblank(ls)->0);
    }
}

/// The description of a file is what its first line with anything on it says, up to 220
/// characters of it. A file of blank lines has none.
pub proof fn law_brief(content: Seq<char>)
    ensures
        brief_of(content) matches Some(brief) ==> exists|k: int|
            {
                &&& 0 <= k < lines_of(content).len()
                &&& brief.is_prefix_of(trimmed(#[trigger] lines_of(content)[k]))
                &&& brief.len() == 220 || brief == trimmed(lines_of(content)[k])
                &&& 0 < brief.len() <= 220
                &&& forall|j: int|
                    0 <= j < k ==> trimmed(#[trigger] lines_of(content)[j]).len() == 0
            },
        brief_of(content) is None ==> forall|j: int|
            0 <= j < lines_of(content).len() ==> trimmed(#[trigger] lines_of(content)[j]).len()
                == 0,
{
    law_first_nonblank(lines_of(content));
    if let Some(line) = first_nonblank(lines_of(content)) {
        law_prefix(trimmed(line), 220);
    }
}

/// The summary of a snippet is introduced as one and gives the beginning of its first line
/// that says anything. An ellipsis tells that there is more.
pub proof fn law_summary(content: Seq<char>)
    requires
        trimmed(content).len() > 0,
    ensures
        exists|line: Seq<char>, cut: Seq<char>|
            {
                &&& #[trigger] cut.is_prefix_of(trimmed(line))
                &&& cut.len() <= 220
                &&& cut.len() == 220 || cut == trimmed(line)
                &&& lines_of(trimmed(content)).contains(line) || line == trimmed(content)
                &&& summary_of(content) == "Summary: "@ + cut && utf8_size(cut) >= utf8_size(
                    trimmed(content),
                ) || summary_of(content) == "Summary: "@ + (cut + " …"@) && utf8_size(cut)
                    < utf8_size(trimmed(content))
            },
{
    let t = trimmed(content);
    law_first_nonblank(lines_of(t));
    let line = match first_nonblank(lines_of(t)) {
        Some(l) => l,
        None => t,
    };
    law_prefix(trimmed(line), 220);
    let cut = prefix_of(trimmed(line), 220);
    assert(cut.is_prefix_of(trimmed(line)));
}

/// An excerpt is made exactly of a snippet with more than 1280 characters: it shows the
/// first of them, and says on a line of its own that it is one.
pub proof fn law_excerpt(content: Seq<char>)
    ensures
        excerpt_of(content) is Some <==> trimmed(content).len() > 1280,
        excerpt_of(content) matches Some(e) ==> {
            let shown = trimmed(content).take(1280);
            e == shown + "... (excerpt truncated)"@ && shown.last() == '\n' || e == shown.push('\n')
                + "... (excerpt truncated)"@ && shown.last() != '\n'
        },
{
}

/// A snippet costs at each stage what its text at that stage counts for, and a summary is
/// never free.
pub proof fn law_costs(content: Seq<char>)
    requires
        tokens_of(summary_of(content)) <= usize::MAX,
        tokens_of(content) <= usize::MAX,
        excerpt_of(content) matches Some(e) ==> tokens_of(e) <= usize::MAX,
    ensures
        cost_of(content).full == tokens_of(content_at(content, Stage::Full)),
        cost_of(content).summary >= 1,
        tokens_of(summary_of(content)) >= 1 ==> cost_of(content).summary == tokens_of(
            content_at(content, Stage::Summary),
        ),
        cost_of(content).excerpt matches Some(t) ==> t == tokens_of(
            content_at(content, Stage::Excerpt),
        ),
        cost_of(content).excerpt is Some <==> excerpt_of(content) is Some,
        content_at(content, Stage::Full) == content,
        content_at(content, Stage::Summary) == summary_of(content),
{
}

proof fn lemma_omitted_no_room(costs: Seq<StageCosts>, used: int, budget: int, i: int)
    requires
        0 <= i < costs.len(),
        costs[i].summary > 0,
        summary_pass(costs, used, budget).0[i] == Stage::Omitted,
    ensures
        summary_pass(costs, used, budget).1 + costs[i].summary > budget,
        summary_pass(costs.take(i), used, budget).1 + costs[i].summary > budget,
    decreases costs.len(),
{
    let front = costs.drop_last();
    lemma_summary_pass(front, used, budget);
    let (stages, u) = summary_pass(front, used, budget);
    let (all, v) = summary_pass(costs, used, budget);
    if i < front.len() {
        assert(all[i] == stages[i]);
        assert(front[i] == costs[i]);
        lemma_omitted_no_room(front, used, budget, i);
        assert(front.take(i) =~= costs.take(i));
    } else {
        assert(costs.take(i) =~= front);
    }
}

proof fn lemma_summary_fitted(costs: Seq<StageCosts>, used: int, budget: int, i: int)
    requires
        0 <= i < costs.len(),
        summary_pass(costs, used, budget).0[i] != Stage::Omitted,
    ensures
        summary_pass(costs, used, budget).0[i] == Stage::Summary,
        summary_pass(costs.take(i), used, budget).1 + costs[i].summary <= budget,
    decreases costs.len(),
{
    let front = costs.drop_last();
    lemma_summary_pass(front, used, budget);
    let (stages, u) = summary_pass(front, used, budget);
    let (all, v) = summary_pass(costs, used, budget);
    if i < front.len() {
        assert(all[i] == stages[i]);
        assert(front[i] == costs[i]);
        lemma_summary_fitted(front, used, budget, i);
        assert(front.take(i) =~= costs.take(i));
    } else {
        assert(costs.take(i) =~= front);
    }
}

proof fn lemma_upgrade_no_room(
    costs: Seq<StageCosts>,
    stages: Seq<Stage>,
    used: int,
    budget: int,
    to: Stage,
    i: int,
)
    requires
        stages_exist(costs, stages),
        to == Stage::Excerpt || to == Stage::Full,
        0 <= i < costs.len(),
        eligible(stages[i], to),
        upgrade_pass(costs, stages, used, budget, to).0[i] == stages[i],
        stages[i] != to,
        upgrade_cost_of(costs[i], stages[i], to) is Some,
    ensures
        upgrade_pass(costs, stages, used, budget, to).1 + upgrade_cost_of(
            costs[i],
            stages[i],
            to,
        )->0 > budget,
    decreases costs.len(),
{
    let c = costs.drop_last();
    let s = stages.drop_last();
    assert forall|k: int| 0 <= k < c.len() implies stage_tokens(
        c[k],
        #[trigger] s[k],
    ) is Some by {
        assert(s[k] == stages[k]);
    }
    lemma_upgrade_pass(c, s, used, budget, to);
    let (done, u) = upgrade_pass(c, s, used, budget, to);
    let (all, v) = upgrade_pass(costs, stages, used, budget, to);
    if i < c.len() {
        assert(all[i] == done[i]);
        assert(c[i] == costs[i] && s[i] == stages[i]);
        lemma_upgrade_no_room(c, s, used, budget, to, i);
    }
}

/// A snippet is left out only where not even its summary fits any more, shown as a summary
/// only where neither its excerpt nor its whole text fits any more in its place, and cut to an
/// excerpt only where its whole text does not fit any more in its place.
pub proof fn law_nothing_more_fits(costs: Seq<StageCosts>, used: int, budget: int, i: int)
    requires
        0 <= i < costs.len(),
        costs[i].summary > 0,
    ensures
        ({
            let (stages, spent) = budget_plan(costs, used, budget);
            let c = costs[i];
            &&& stages[i] == Stage::Omitted ==> spent + c.summary > budget
            &&& stages[i] == Stage::Summary ==> (c.excerpt matches Some(e) ==> e > c.summary ==> spent
                + (e - c.summary) > budget)
            &&& stages[i] == Stage::Summary ==> c.full > c.summary ==> spent + (c.full - c.summary)
                > budget
            &&& stages[i] == Stage::Excerpt ==> c.excerpt is Some && (c.full > c.excerpt->0
                ==> spent + (c.full - c.excerpt->0) > budget)
        }),
{
    lemma_summary_pass(costs, used, budget);
    let (first, u1) = summary_pass(costs, used, budget);
    lemma_upgrade_pass(costs, first, u1, budget, Stage::Excerpt);
    let (second, u2) = upgrade_pass(costs, first, u1, budget, Stage::Excerpt);
    lemma_upgrade_pass(costs, second, u2, budget, Stage::Full);
    let (stages, spent) = budget_plan(costs, used, budget);
    assert(second[i] == first[i] || second[i] == Stage::Excerpt);
    assert(stages[i] == second[i] || stages[i] == Stage::Full);
    if first[i] == Stage::Omitted {
        lemma_omitted_no_room(costs, used, budget, i);
    } else {
        lemma_summary_fitted(costs, used, budget, i);
    }
    if stages[i] == Stage::Summary && costs[i].excerpt is Some && costs[i].excerpt->0
        > costs[i].summary {
        lemma_upgrade_no_room(costs, first, u1, budget, Stage::Excerpt, i);
    }
    if stages[i] != Stage::Full && stages[i] != Stage::Omitted && upgrade_cost_of(
        costs[i],
        second[i],
        Stage::Full,
    ) is Some {
        lemma_upgrade_no_room(costs, second, u2, budget, Stage::Full, i);
    }
    assert(stage_tokens(costs[i], stages[i]) is Some);
}

/// Snippets are taken in their order: whether one is left out depends on those in front
/// of it alone. It is, exactly where its summary does not fit beside the summaries of those
/// in front of it that were taken.
pub proof fn law_earlier_snippets_first(costs: Seq<StageCosts>, used: int, budget: int, i: int)
    requires
        0 <= i < costs.len(),
        costs[i].summary > 0,
    ensures
        budget_plan(costs, used, budget).0[i] == Stage::Omitted <==> summary_pass(
            costs.take(i),
            used,
            budget,
        ).1 + costs[i].summary > budget,
        i == 0 ==> (budget_plan(costs, used, budget).0[0] == Stage::Omitted <==> used
            + costs[0].summary > budget),
{
    lemma_summary_pass(costs, used, budget);
    let (first, u1) = summary_pass(costs, used, budget);
    lemma_upgrade_pass(costs, first, u1, budget, Stage::Excerpt);
    let (second, u2) = upgrade_pass(costs, first, u1, budget, Stage::Excerpt);
    lemma_upgrade_pass(costs, second, u2, budget, Stage::Full);
    let (stages, spent) = budget_plan(costs, used, budget);
    assert(second[i] == Stage::Omitted <==> first[i] == Stage::Omitted);
    assert(stages[i] == Stage::Omitted <==> second[i] == Stage::Omitted);
    if first[i] == Stage::Omitted {
        lemma_omitted_no_room(costs, used, budget, i);
    } else {
        lemma_summary_fitted(costs, used, budget, i);
    }
    if i == 0 {
        assert(costs.take(0) =~= Seq::<StageCosts>::empty());
    }
}

/// The definitions cost what their names, signatures and documentation count for, one by
/// one.
pub proof fn law_definition_costs(ds: Seq<BundleDefinition>, d: BundleDefinition)
    ensures
        definitions_tokens_of(Seq::empty()) == 0,
        definitions_tokens_of(ds.push(d)) >= definitions_tokens_of(ds) + tokens_of(d.name@),
        d.signature is None && d.docstring is None ==> definitions_tokens_of(ds.push(d))
            == definitions_tokens_of(ds) + tokens_of(d.name@),
        d.signature matches Some(s) ==> d.docstring is None ==> definitions_tokens_of(ds.push(d))
            == definitions_tokens_of(ds) + tokens_of(d.name@) + tokens_of(s@),
        d.docstring matches Some(t) ==> d.signature is None ==> definitions_tokens_of(ds.push(d))
            == definitions_tokens_of(ds) + tokens_of(d.name@) + tokens_of(t@),
        d.signature matches Some(s) ==> d.docstring matches Some(t) ==> definitions_tokens_of(
            ds.push(d),
        ) == definitions_tokens_of(ds) + tokens_of(d.name@) + tokens_of(s@) + tokens_of(t@),
{
    assert(ds.push(d).drop_last() =~= ds);
}

/// What is reported adds up: the definitions and the snippets make what is used, and what
/// is used and what is left make the budget, unless it is overspent.
pub proof fn law_usage_adds_up(cost: int, budget: int, used: int, stages: Seq<Stage>)
    requires
        0 <= cost <= used <= usize::MAX,
        0 < budget <= usize::MAX,
    ensures
        ({
            let u = cut_usage(cost, budget, used, stages);
            &&& u.definitions_tokens == cost
            &&& u.definitions_tokens + u.snippet_tokens == u.used_tokens
            &&& u.used_tokens == used
            &&& u.budget_tokens == budget
            &&& used <= budget ==> u.used_tokens + u.remaining_tokens == u.budget_tokens
            &&& used > budget ==> u.remaining_tokens == 0
            &&& !u.cache_hit
        }),
{
}

/// The counts of a report are those of the snippets at that stage.
pub proof fn law_usage_counts(cost: int, budget: int, used: int, stages: Seq<Stage>, k: int)
    requires
        0 <= k < stages.len() <= usize::MAX,
    ensures
        ({
            let u = cut_usage(cost, budget, used, stages);
            &&& u.omitted_snippets + u.summary_snippets + u.excerpt_snippets <= stages.len()
            &&& stages[k] == Stage::Omitted ==> u.omitted_snippets > 0
            &&& stages[k] == Stage::Summary ==> u.summary_snippets > 0
            &&& stages[k] == Stage::Excerpt ==> u.excerpt_snippets > 0
            &&& stages[k] == Stage::Full ==> u.omitted_snippets + u.summary_snippets
                + u.excerpt_snippets < stages.len()
        }),
{
    law_kept_in_order(stages);
    lemma_stage_counted(stages, k);
}

/// A cut is told of only where it was made, and the line on the budget closes the list.
pub proof fn law_told_only_of_cuts(cost: nat, budget: nat, used: nat, stages: Seq<Stage>)
    ensures
        cut_warnings(cost, budget, used, stages).len() == (if cost > budget {
            1int
        } else {
            0
        }) + (if stages.contains(Stage::Omitted) {
            1int
        } else {
            0
        }) + (if stages.contains(Stage::Excerpt) {
            1int
        } else {
            0
        }) + (if stages.contains(Stage::Summary) {
            1int
        } else {
            0
        }) + (if budget > 0 {
            1int
        } else {
            0
        }),
        cost > budget ==> cut_warnings(cost, budget, used, stages)[0] == over_budget_warning(
            cost,
            budget,
        ),
{
    lemma_counted_stands(stages, Stage::Omitted);
    lemma_counted_stands(stages, Stage::Excerpt);
    lemma_counted_stands(stages, Stage::Summary);
}

proof fn lemma_counted_stands(stages: Seq<Stage>, stage: Stage)
    ensures
        count_stage(stages, stage) > 0 <==> stages.contains(stage),
    decreases stages.len(),
{
    if stages.len() > 0 {
        let front = stages.drop_last();
        lemma_counted_stands(front, stage);
        if front.contains(stage) {
            let i = choose|i: int| 0 <= i < front.len() && front[i] == stage;
            assert(stages[i] == stage);
        }
        if stages.last() == stage {
            assert(stages[stages.len() - 1] == stage);
        } else if stages.contains(stage) {
            let i = choose|i: int| 0 <= i < stages.len() && stages[i] == stage;
            assert(front[i] == stage);
        }
    }
}

/// The line of the usage tells what was spent on definitions, on snippets, and together, of
/// how much, and what is left.
pub proof fn law_usage_line(cost: nat, snippets: nat, used: nat, budget: nat, left: nat)
    ensures
        usage_line(cost, snippets, used, budget, left) == "Token usage: definitions "@ + decimal(
            cost,
        ) + " + snippets "@ + decimal(snippets) + " = "@ + decimal(used) + " of "@ + decimal(budget)
            + " ("@ + decimal(left) + " unused)."@,
{
}

/// A stage above another costs the difference, and nothing is moved to where it would cost no
/// more. A snippet that was left out is never moved, and an excerpt is made of a summary only.
pub proof fn law_upgrade(c: StageCosts, from: Stage, to: Stage)
    ensures
        upgrade_cost_of(c, from, to) matches Some(d) ==> d > 0,
        from is Summary && to is Full && c.full > c.summary ==> upgrade_cost_of(c, from, to) == Some(
            c.full - c.summary,
        ),
        from is Summary && to is Excerpt ==> (c.excerpt matches Some(e) ==> e > c.summary
            ==> upgrade_cost_of(c, from, to) == Some(e - c.summary)),
        to is Excerpt && c.excerpt is None ==> upgrade_cost_of(c, from, to) is None,
        from is Omitted && to is Summary && c.summary > 0 ==> upgrade_cost_of(c, from, to) == Some(
            c.summary as int,
        ),
        upgrade_cost_of(c, from, from) is None,
        !eligible(Stage::Omitted, to),
        eligible(from, Stage::Excerpt) <==> from is Summary,
        eligible(Stage::Summary, Stage::Full) && eligible(Stage::Excerpt, Stage::Full),
{
}

} // verus!
