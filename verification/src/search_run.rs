//! A search from its request to its answer: what is decided before the index is asked,
//! and how the answer is put together from what came back.

use vstd::prelude::*;
use crate::bundle_graph::text_of;
use crate::decimal::{parse_unsigned, unsigned_of};
use crate::search::{
    ContextGoal, PendingMatch, SearchDiagnostics, SearchResultCoordinate, SemanticSearchMatch,
    SemanticSearchParams, SemanticSearchResponse, SummaryMode, DEFAULT_CONTEXT_AFTER,
    DEFAULT_CONTEXT_BEFORE, DEFAULT_RESULT_LIMIT, MAX_RESULT_LIMIT,
};
use crate::search_lexical::SearchFilter;
use crate::search_query::{
    context_lines, context_paddings, identifier_like, is_identifier_query, larger, lexical_hint,
    normalize_limit, should_run_lexical, top_limit_of, QueryAnalysis, SearchBudgetProfile,
};
use crate::search_results::{
    build_clarification_prompts, clarifications, combine_matches, distinct_matches,
    lists_clarifications, rank_candidates, top_of,
};
use crate::text::{lowercase, same_text, to_lowercase, trim_str, trimmed};

verus! {

/// What a request asks for, made definite.
#[derive(Debug)]
pub struct SearchPlan {
    /// The query without white space at its ends.
    pub query: String,
    pub limit: usize,
    pub identifier_query: bool,
    pub lexical_hint: bool,
    pub summary_mode: SummaryMode,
    pub before_lines: usize,
    pub after_lines: usize,
    pub filter: SearchFilter,
    /// The hits that the caller has seen.
    pub seen_hits: Vec<SearchResultCoordinate>,
}

/// The text in lower case, where there is one.
pub open spec fn opt_lowercase(s: Option<String>) -> Option<Seq<char>> {
    match s {
        Some(v) => Some(lowercase(v@)),
        None => None,
    }
}

/// What a request asks for; `None` where its query is blank.
pub fn plan_search(params: SemanticSearchParams) -> (r: Option<SearchPlan>)
    ensures
        r is None <==> trimmed(params.query@).len() == 0,
        match r {
            Some(plan) => {
                &&& plan.query@ == trimmed(params.query@)
                &&& plan.limit == (match params.limit {
                    Some(v) => if v > MAX_RESULT_LIMIT {
                        MAX_RESULT_LIMIT as int
                    } else {
                        v as int
                    },
                    None => DEFAULT_RESULT_LIMIT as int,
                })
                &&& plan.identifier_query == identifier_like(plan.query@)
                &&& plan.lexical_hint == lexical_hint(plan.query@)
                &&& plan.summary_mode == (match params.summary_mode {
                    Some(m) => m,
                    None => SummaryMode::Brief,
                })
                &&& plan.before_lines == context_lines(
                    params.max_context_before,
                    DEFAULT_CONTEXT_BEFORE,
                )
                &&& plan.after_lines == context_lines(
                    params.max_context_after,
                    DEFAULT_CONTEXT_AFTER,
                )
                &&& plan.filter.classification == params.classification
                &&& plan.filter.path_prefix == params.path_prefix
                &&& plan.filter.path_contains == params.path_contains
                &&& text_of(plan.filter.language) == opt_lowercase(params.language)
                &&& plan.seen_hits@ == (match params.recent_hits {
                    Some(hits) => hits@,
                    None => Seq::empty(),
                })
            },
            None => true,
        },
{
    let query = trim_str(params.query.as_str());
    if query.as_str().is_empty() {
        return None;
    }
    let (before_lines, after_lines) = context_paddings(
        params.max_context_before,
        params.max_context_after,
    );
    let language: Option<String> = match &params.language {
        Some(l) => Some(to_lowercase(l.as_str())),
        None => None,
    };
    let summary_mode = match params.summary_mode {
        Some(m) => m,
        None => SummaryMode::Brief,
    };
    let seen_hits: Vec<SearchResultCoordinate> = match params.recent_hits {
        Some(hits) => hits,
        None => Vec::new(),
    };
    Some(
        SearchPlan {
            limit: normalize_limit(params.limit),
            identifier_query: is_identifier_query(query.as_str()),
            lexical_hint: should_run_lexical(query.as_str()),
            query,
            summary_mode,
            before_lines,
            after_lines,
            filter: SearchFilter {
                classification: params.classification,
                path_prefix: params.path_prefix,
                path_contains: params.path_contains,
                language,
            },
            seen_hits,
        },
    )
}

/// How many candidates are kept while they are ranked: the candidates wanted, but not
/// fewer than the results or six.
pub open spec fn ranked_limit(candidates: int, limit: int) -> int {
    larger(candidates, larger(limit, DEFAULT_RESULT_LIMIT as int))
}

/// Ranks the candidates and puts them behind the lexical matches.
pub fn merge_matches(
    lexical: Vec<PendingMatch>,
    candidates: Vec<PendingMatch>,
    candidate_limit: usize,
    limit: usize,
) -> (r: Vec<PendingMatch>)
    ensures
        r@ == distinct_matches(
            lexical@ + top_of(
                candidates@,
                ranked_limit(candidate_limit as int, limit as int),
            ).reverse(),
            limit as int,
        ),
        r@.len() <= limit,
{
    let floor: usize = if limit > DEFAULT_RESULT_LIMIT {
        limit
    } else {
        DEFAULT_RESULT_LIMIT
    };
    let top: usize = if candidate_limit > floor {
        candidate_limit
    } else {
        floor
    };
    let ranked = rank_candidates(candidates, top);
    combine_matches(lexical, ranked, limit)
}

/// What came back from the index for a search.
pub struct SearchOutcome {
    pub database_path: String,
    pub database_name: String,
    pub model: String,
    pub total_chunks: u64,
    pub evaluated_chunks: u64,
    pub results: Vec<SemanticSearchMatch>,
    pub summary_mode: SummaryMode,
    pub lexical_latency_ms: Option<u128>,
    pub embedding_latency_ms: Option<u128>,
    pub total_latency_ms: u128,
    /// How many neighbours the vector index was asked for; `None` where no result was
    /// wanted.
    pub ann_candidate_count: Option<u32>,
    /// The stored notes on the embeddings.
    pub backend: Option<String>,
    pub quantized: Option<String>,
    pub dimension: Option<String>,
}

/// The stored note says yes.
pub open spec fn noted_true(note: Option<String>) -> Option<bool> {
    match note {
        Some(v) => Some(v@ == "true"@),
        None => None,
    }
}

/// The stored note is a number.
pub open spec fn noted_number(note: Option<String>) -> Option<nat> {
    match note {
        Some(v) => unsigned_of(v@, u32::MAX as nat),
        None => None,
    }
}

/// A limit, where it is not zero.
pub open spec fn some_limit(n: int) -> Option<u32> {
    if n > 0 {
        Some(n as u32)
    } else {
        None
    }
}

/// A copy of the goals.
fn copy_goals(goals: &Vec<ContextGoal>) -> (r: Vec<ContextGoal>)
    ensures
        r@ == goals@,
{
    let mut out: Vec<ContextGoal> = Vec::new();
    let mut i: usize = 0;
    while i < goals.len()
        invariant
            i <= goals.len(),
            out@ == goals@.take(i as int),
        decreases goals.len() - i,
    {
        out.push(goals[i]);
        assert(goals@.take(i + 1) =~= goals@.take(i as int).push(goals@[i as int]));
        i += 1;
    }
    assert(goals@.take(i as int) =~= goals@);
    out
}

/// The answer to a search in a database with chunks. Where no result was wanted, nothing
/// is asked of the caller.
pub fn answer_search(
    query: &str,
    limit: usize,
    analysis: QueryAnalysis,
    profile: SearchBudgetProfile,
    outcome: SearchOutcome,
) -> (r: SemanticSearchResponse)
    ensures
        r.database_path == outcome.database_path,
        r.database_name == Some(outcome.database_name),
        r.embedding_model is Some && r.embedding_model->0@ == outcome.model@,
        r.total_chunks == outcome.total_chunks,
        r.evaluated_chunks == outcome.evaluated_chunks,
        r.results == outcome.results,
        r.summary_mode == outcome.summary_mode,
        r.query_intent == Some(analysis.primary_intent),
        r.intent_confidence == Some(analysis.confidence),
        r.context_goals@ == analysis.goals@,
        r.suggested_tools@.len() == 0,
        r.diagnostics is Some,
        ({
            let d = r.diagnostics->0;
            let asked = if limit == 0 {
                Seq::empty()
            } else {
                clarifications(
                    query@,
                    analysis,
                    analysis.goals@,
                    outcome.results@,
                    limit as int,
                    profile.run_lexical && profile.lexical_limit > 0,
                )
            };
            &&& lists_clarifications(r.clarification_prompts@, d.clarification_reasons@, asked)
            &&& d.model is Some && d.model->0@ == outcome.model@
            &&& d.backend == outcome.backend
            &&& d.quantized == noted_true(outcome.quantized)
            &&& match d.dimension {
                Some(v) => noted_number(outcome.dimension) == Some(v as nat),
                None => noted_number(outcome.dimension) is None,
            }
            &&& d.embedding_latency_ms == outcome.embedding_latency_ms
            &&& d.lexical_latency_ms == outcome.lexical_latency_ms
            &&& d.total_latency_ms == outcome.total_latency_ms
            &&& d.evaluated_chunk_count == Some(outcome.evaluated_chunks)
            &&& d.query_intent == Some(analysis.primary_intent)
            &&& d.intent_confidence == Some(analysis.confidence)
            &&& d.context_goals@ == analysis.goals@
            &&& d.lexical_limit == some_limit(
                if profile.run_lexical {
                    profile.lexical_limit as int
                } else {
                    0
                },
            )
            &&& d.embedding_limit == some_limit(top_limit_of(profile, limit as int))
            &&& d.ann_candidate_count == outcome.ann_candidate_count
        }),
{
    let ran_lexical = profile.should_run_lexical();
    let (prompts, reasons) = if limit == 0 {
        let none: Vec<String> = Vec::new();
        let why: Vec<String> = Vec::new();
        (none, why)
    } else {
        build_clarification_prompts(
            query,
            &analysis,
            analysis.goals.as_slice(),
            outcome.results.as_slice(),
            limit,
            ran_lexical,
        )
    };
    let quantized: Option<bool> = match &outcome.quantized {
        Some(v) => Some(same_text(v.as_str(), "true")),
        None => None,
    };
    let dimension: Option<u32> = match &outcome.dimension {
        Some(v) => match parse_unsigned(v.as_str(), u32::MAX as u64) {
            Some(n) => Some(n as u32),
            None => None,
        },
        None => None,
    };
    let lexical_limit: Option<u32> = if ran_lexical {
        Some(profile.lexical_limit as u32)
    } else {
        None
    };
    let embedding_top: usize = profile.embedding_top_limit(limit);
    let embedding_limit: Option<u32> = if embedding_top > 0 {
        Some(embedding_top as u32)
    } else {
        None
    };
    let goals = copy_goals(&analysis.goals);
    let model_name = outcome.model.clone();
    let diagnostics = SearchDiagnostics {
        model: Some(model_name),
        backend: outcome.backend,
        quantized,
        dimension,
        embedding_latency_ms: outcome.embedding_latency_ms,
        lexical_latency_ms: outcome.lexical_latency_ms,
        total_latency_ms: outcome.total_latency_ms,
        evaluated_chunk_count: Some(outcome.evaluated_chunks),
        query_intent: Some(analysis.primary_intent),
        intent_confidence: Some(analysis.confidence),
        context_goals: goals,
        lexical_limit,
        embedding_limit,
        ann_candidate_count: outcome.ann_candidate_count,
        clarification_reasons: reasons,
    };
    SemanticSearchResponse {
        database_path: outcome.database_path,
        database_name: Some(outcome.database_name),
        embedding_model: Some(outcome.model),
        total_chunks: outcome.total_chunks,
        evaluated_chunks: outcome.evaluated_chunks,
        results: outcome.results,
        summary_mode: outcome.summary_mode,
        query_intent: Some(analysis.primary_intent),
        intent_confidence: Some(analysis.confidence),
        context_goals: analysis.goals,
        clarification_prompts: prompts,
        suggested_tools: Vec::new(),
        diagnostics: Some(diagnostics),
    }
}

/// While candidates are ranked, room is kept for all that are wanted and for all results,
/// and for six in any case, but for no more than one of these asks for.
pub proof fn law_ranked_limit(candidates: int, limit: int)
    ensures
        ranked_limit(candidates, limit) >= candidates,
        ranked_limit(candidates, limit) >= limit,
        ranked_limit(candidates, limit) >= 6,
        ranked_limit(candidates, limit) == candidates || ranked_limit(candidates, limit) == limit
            || ranked_limit(candidates, limit) == 6,
{
}

/// A stored note says yes with the one word that means it, and a number with its digits; no
/// note says nothing.
pub proof fn law_notes(v: String)
    ensures
        noted_true(Some(v)) == Some(true) <==> v@ == "true"@,
        noted_true(None) is None,
        noted_number(None) is None,
        noted_number(Some(v)) == unsigned_of(v@, 0xffff_ffff),
{
}

/// A limit of zero is none.
pub proof fn law_some_limit(n: int)
    requires
        n <= u32::MAX,
    ensures
        some_limit(n) is Some <==> n > 0,
        some_limit(n) matches Some(v) ==> v == n,
{
}

} // verus!
