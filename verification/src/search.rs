//! Semantic search: the requests, the answers and the limits.

use vstd::prelude::*;
use crate::bundle::ContextBundleParams;
use crate::score::Score;

verus! {

/// Results returned where the request names no number.
pub const DEFAULT_RESULT_LIMIT: usize = 6;

/// The least lexical limit of a query that looks like an identifier.
pub const DEFAULT_IDENTIFIER_LIMIT: usize = 3;

/// The most results that a request can ask for.
pub const MAX_RESULT_LIMIT: usize = 50;

/// Lines of context before a match where the request names no number.
pub const DEFAULT_CONTEXT_BEFORE: usize = 1;

/// Lines of context behind a match where the request names no number.
pub const DEFAULT_CONTEXT_AFTER: usize = 1;

/// The most lines of context on either side.
pub const MAX_CONTEXT_LINES: usize = 6;

/// The most characters of a match's text in a brief answer.
pub const MAX_BRIEF_CONTENT_CHARS: usize = 240;

/// The most characters of a match's context in a brief answer.
pub const MAX_BRIEF_CONTEXT_CHARS: usize = 160;

/// The most candidates that are ranked by embedding.
pub const MAX_EMBEDDING_CANDIDATES: usize = 256;

/// The least number of neighbours that the vector index is asked for.
pub const MIN_ANN_CANDIDATES: usize = 32;

/// The embedding model that is used where none is named.
pub const DEFAULT_EMBEDDING_MODEL: &'static str = "Xenova/bge-small-en-v1.5";

/// A request to search.
#[derive(Debug, Clone)]
pub struct SemanticSearchParams {
    pub root: Option<String>,
    pub query: String,
    pub database_name: Option<String>,
    pub limit: Option<u32>,
    pub model: Option<String>,
    pub language: Option<String>,
    pub path_prefix: Option<String>,
    pub path_contains: Option<String>,
    pub classification: Option<Classification>,
    pub summary_mode: Option<SummaryMode>,
    pub max_context_before: Option<u32>,
    pub max_context_after: Option<u32>,
    pub recent_hits: Option<Vec<SearchResultCoordinate>>,
}

/// Where a result stands: its file and which chunk of the file it is.
#[derive(Debug)]
pub struct SearchResultCoordinate {
    pub path: String,
    pub chunk_index: i32,
}

impl Clone for SearchResultCoordinate {
    fn clone(&self) -> (r: Self)
        ensures
            r == *self,
    {
        SearchResultCoordinate { path: self.path.clone(), chunk_index: self.chunk_index }
    }
}

/// What a snippet is.
#[derive(Debug, Clone, Copy, PartialEq, Eq, Structural)]
pub enum Classification {
    Function,
    Comment,
    Code,
}

/// How much of each match is returned.
#[derive(Debug, Clone, Copy, PartialEq, Eq, Structural)]
pub enum SummaryMode {
    Brief,
    Full,
}

impl Default for SummaryMode {
    fn default() -> (r: Self)
        ensures
            r == SummaryMode::Brief,
    {
        SummaryMode::Brief
    }
}

/// How a match was found.
#[derive(Debug, Clone, Copy, PartialEq, Eq, Structural)]
pub enum SearchSource {
    Embedding,
    Lexical,
}

/// What a query mostly asks for.
#[derive(Debug, Clone, Copy, PartialEq, Eq, Structural)]
pub enum QueryIntent {
    Lexical,
    Embedding,
    Graph,
    Docstring,
    Hybrid,
}

/// What the caller wants the context for.
#[derive(Debug, Clone, Copy, PartialEq, Eq, Structural)]
pub enum ContextGoal {
    Debugging,
    ApiDiscovery,
    ChangeImpact,
    Navigation,
    GeneralUnderstanding,
}

/// How a search went.
#[derive(Debug, Clone)]
pub struct SearchDiagnostics {
    pub model: Option<String>,
    pub backend: Option<String>,
    pub quantized: Option<bool>,
    pub dimension: Option<u32>,
    pub embedding_latency_ms: Option<u128>,
    pub lexical_latency_ms: Option<u128>,
    pub total_latency_ms: u128,
    pub evaluated_chunk_count: Option<u64>,
    pub query_intent: Option<QueryIntent>,
    pub intent_confidence: Option<Score>,
    pub context_goals: Vec<ContextGoal>,
    pub lexical_limit: Option<u32>,
    pub embedding_limit: Option<u32>,
    pub ann_candidate_count: Option<u32>,
    pub clarification_reasons: Vec<String>,
}

/// A match. `metadata` is JSON text.
#[derive(Debug, Clone)]
pub struct SemanticSearchMatch {
    pub path: String,
    pub chunk_index: i32,
    pub score: Score,
    pub normalized_score: Score,
    pub language: Option<String>,
    pub classification: Classification,
    pub content: String,
    pub embedding_model: String,
    pub byte_start: Option<i64>,
    pub byte_end: Option<i64>,
    pub line_start: Option<i64>,
    pub line_end: Option<i64>,
    pub context_before: Option<String>,
    pub context_after: Option<String>,
    pub source: SearchSource,
    pub summary: Option<String>,
    pub symbol: Option<String>,
    pub identifier: Option<String>,
    pub source_type: Option<String>,
    pub metadata: Option<String>,
    pub confidence: Score,
}

/// A tool call that would follow up a search.
#[derive(Debug, Clone)]
pub struct SuggestedTool {
    pub tool: String,
    pub rank: u32,
    pub score: Score,
    pub description: Option<String>,
    pub preview: Option<String>,
    pub parameters: ContextBundleParams,
}

/// The answer to a search.
#[derive(Debug, Clone)]
pub struct SemanticSearchResponse {
    pub database_path: String,
    pub database_name: Option<String>,
    pub embedding_model: Option<String>,
    pub total_chunks: u64,
    pub evaluated_chunks: u64,
    pub results: Vec<SemanticSearchMatch>,
    pub summary_mode: SummaryMode,
    pub query_intent: Option<QueryIntent>,
    pub intent_confidence: Option<Score>,
    pub context_goals: Vec<ContextGoal>,
    pub clarification_prompts: Vec<String>,
    pub suggested_tools: Vec<SuggestedTool>,
    pub diagnostics: Option<SearchDiagnostics>,
}

/// Why no embedding model could be chosen.
#[derive(Debug)]
pub enum ModelChoiceError {
    /// The requested model is not in the index.
    ModelNotFound { requested: String, available: String },
    /// None was requested, and the index does not hold exactly one.
    MultipleModels { available: String },
}

/// A chunk as it is stored. `metadata_raw` is JSON text, and `embedding_blob` holds the
/// numbers of the vector, four bytes each, the low byte first.
#[derive(Debug)]
pub struct ChunkRow {
    pub id: String,
    pub path: String,
    pub chunk_index: i32,
    pub content: String,
    pub summary: Option<String>,
    pub symbol: Option<String>,
    pub identifier: Option<String>,
    pub source_type: Option<String>,
    pub language: Option<String>,
    pub metadata_raw: Option<String>,
    pub embedding_blob: Vec<u8>,
    pub byte_start: Option<i64>,
    pub byte_end: Option<i64>,
    pub line_start: Option<i64>,
    pub line_end: Option<i64>,
    pub embedding_model: String,
}

/// A chunk that passed the filters of a search.
#[derive(Debug)]
pub struct PendingMatch {
    pub id: String,
    pub path: String,
    pub chunk_index: i32,
    pub content: String,
    pub summary: Option<String>,
    pub symbol: Option<String>,
    pub identifier: Option<String>,
    pub source_type: Option<String>,
    pub metadata: Option<String>,
    pub byte_start: Option<i64>,
    pub byte_end: Option<i64>,
    pub line_start: Option<i64>,
    pub line_end: Option<i64>,
    pub embedding_model: String,
    pub score: Score,
    pub classification: Classification,
    pub language: Option<String>,
    pub source: SearchSource,
}

/// An answer without results.
pub fn empty_response(
    db_path: &str,
    database_name: Option<String>,
    model: Option<String>,
) -> (r: SemanticSearchResponse)
    ensures
        r.database_path@ == db_path@,
        r.database_name == database_name,
        r.embedding_model == model,
        r.total_chunks == 0,
        r.evaluated_chunks == 0,
        r.results@.len() == 0,
        r.summary_mode == SummaryMode::Brief,
        r.query_intent is None,
        r.intent_confidence is None,
        r.context_goals@.len() == 0,
        r.clarification_prompts@.len() == 0,
        r.suggested_tools@.len() == 0,
        r.diagnostics is None,
{
    SemanticSearchResponse {
        database_path: db_path.to_owned(),
        database_name,
        embedding_model: model,
        total_chunks: 0,
        evaluated_chunks: 0,
        results: Vec::new(),
        summary_mode: SummaryMode::Brief,
        query_intent: None,
        intent_confidence: None,
        context_goals: Vec::new(),
        clarification_prompts: Vec::new(),
        suggested_tools: Vec::new(),
        diagnostics: None,
    }
}

} // verus!
