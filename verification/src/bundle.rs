//! Context bundles: what the index knows about one file, cut to a token budget.

use vstd::prelude::*;
use crate::score::Score;
use crate::search::ContextGoal;

verus! {

/// Snippets returned where the request names no number.
pub const DEFAULT_SNIPPET_LIMIT: usize = 3;

/// The most snippets that a request can ask for.
pub const MAX_SNIPPET_LIMIT: usize = 10;

/// Neighbours returned where the request names no number.
pub const DEFAULT_NEIGHBOR_LIMIT: usize = 12;

/// The most neighbours that a request can ask for.
pub const MAX_NEIGHBOR_LIMIT: usize = 50;

/// The token budget where the request names none.
pub const DEFAULT_TOKEN_BUDGET: usize = 3_000;

/// How many lines around the focus line a focus snippet shows.
pub const FOCUS_CONTEXT_RADIUS: u32 = 25;

/// The most characters of a summary line.
pub const SUMMARY_CHAR_LIMIT: usize = 220;

/// The most tokens of an excerpt.
pub const EXCERPT_TOKEN_LIMIT: usize = 320;

/// The least number of tokens that a summary counts for.
pub const MIN_SUMMARY_TOKEN_FLOOR: usize = 1;

/// How many bundles the cache keeps.
pub const BUNDLE_CACHE_CAPACITY: usize = 32;

/// The most quick links of a bundle.
pub const MAX_QUICK_LINKS: usize = 16;

/// A request for a context bundle.
#[derive(Debug, Clone)]
pub struct ContextBundleParams {
    pub root: Option<String>,
    pub database_name: Option<String>,
    pub file: String,
    pub symbol: Option<SymbolSelector>,
    pub max_snippets: Option<u32>,
    pub max_neighbors: Option<u32>,
    pub budget_tokens: Option<u32>,
    pub ranges: Option<Vec<LineRange>>,
    pub focus_line: Option<u32>,
    pub query: Option<String>,
    pub context_goals: Option<Vec<ContextGoal>>,
}

/// A symbol by its name and, where given, its kind.
#[derive(Debug, Clone)]
pub struct SymbolSelector {
    pub name: String,
    pub kind: Option<String>,
}

/// A range of lines, counted from one, both ends included.
#[derive(Debug, Clone, Copy, PartialEq, Eq, Structural)]
pub struct LineRange {
    pub start_line: u32,
    pub end_line: u32,
}

/// A context bundle.
#[derive(Debug, Clone)]
pub struct ContextBundleResponse {
    pub database_path: String,
    pub file: BundleFileMetadata,
    pub definitions: Vec<BundleDefinition>,
    pub focus_definition: Option<BundleDefinition>,
    pub related: Vec<BundleEdgeNeighbor>,
    pub snippets: Vec<BundleSnippet>,
    pub latest_ingestion: Option<BundleIngestionSummary>,
    pub warnings: Vec<String>,
    pub quick_links: Vec<ContextBundleQuickLink>,
    pub usage: BundleUsageStats,
    pub diagnostics: Option<BundleDiagnostics>,
}

/// What the index stores about the file itself.
#[derive(Debug, Clone)]
pub struct BundleFileMetadata {
    pub path: String,
    pub size: i64,
    pub modified: i64,
    pub hash: String,
    pub last_indexed_at: i64,
    pub brief: Option<String>,
    pub content: Option<String>,
}

/// How the token budget was spent.
#[derive(Debug, Clone, Copy, PartialEq, Eq, Structural)]
pub struct BundleUsageStats {
    pub definitions_tokens: usize,
    pub snippet_tokens: usize,
    pub used_tokens: usize,
    pub budget_tokens: usize,
    pub remaining_tokens: usize,
    pub omitted_snippets: usize,
    pub excerpt_snippets: usize,
    pub summary_snippets: usize,
    pub cache_hit: bool,
}

/// A definition that the file holds. `metadata` is JSON text.
#[derive(Debug)]
pub struct BundleDefinition {
    pub id: String,
    pub name: String,
    pub kind: String,
    pub signature: Option<String>,
    pub range_start: Option<i64>,
    pub range_end: Option<i64>,
    pub metadata: Option<String>,
    pub visibility: Option<String>,
    pub docstring: Option<String>,
    pub todo_count: Option<u32>,
}

impl Clone for BundleDefinition {
    fn clone(&self) -> (r: Self)
        ensures
            r == *self,
    {
        BundleDefinition {
            id: self.id.clone(),
            name: self.name.clone(),
            kind: self.kind.clone(),
            signature: self.signature.clone(),
            range_start: self.range_start,
            range_end: self.range_end,
            metadata: self.metadata.clone(),
            visibility: self.visibility.clone(),
            docstring: self.docstring.clone(),
            todo_count: self.todo_count,
        }
    }
}

/// An edge of the code graph with the node at its other end. `metadata` is JSON text.
#[derive(Debug, Clone)]
pub struct BundleEdgeNeighbor {
    pub id: String,
    pub kind: String,
    pub direction: NeighborDirection,
    pub metadata: Option<String>,
    pub source_path: Option<String>,
    pub target_path: Option<String>,
    pub neighbor: NeighborNode,
}

/// A node of the code graph. `metadata` is JSON text.
#[derive(Debug, Clone)]
pub struct NeighborNode {
    pub id: String,
    pub path: Option<String>,
    pub kind: String,
    pub name: String,
    pub signature: Option<String>,
    pub range_start: Option<i64>,
    pub range_end: Option<i64>,
    pub metadata: Option<String>,
}

/// A piece of a file with where it stands. `metadata` is JSON text, and `embedding`
/// is the stored vector.
#[derive(Debug, Clone)]
pub struct BundleSnippet {
    pub path: Option<String>,
    pub source: SnippetSource,
    pub chunk_index: Option<i32>,
    pub content: String,
    pub byte_start: Option<i64>,
    pub byte_end: Option<i64>,
    pub line_start: Option<i64>,
    pub line_end: Option<i64>,
    pub served_count: Option<i64>,
    pub summary: Option<String>,
    pub symbol: Option<String>,
    pub identifier: Option<String>,
    pub source_type: Option<String>,
    pub metadata: Option<String>,
    pub score: Option<Score>,
    pub similarity: Option<Score>,
    pub embedding_model: Option<String>,
    pub embedding: Option<Vec<Score>>,
}

/// How the snippets were found.
#[derive(Debug, Clone)]
pub struct BundleDiagnostics {
    pub query: Option<String>,
    pub embedding_model: Option<String>,
    pub embedding_backend: Option<String>,
    pub embedding_latency_ms: Option<u128>,
    pub similarity_min: Option<Score>,
    pub similarity_max: Option<Score>,
}

/// The last run that filled the index.
#[derive(Debug, Clone)]
pub struct BundleIngestionSummary {
    pub id: String,
    pub finished_at: i64,
    pub duration_ms: i64,
    pub file_count: i64,
}

/// A place to look next.
#[derive(Debug, Clone)]
pub struct ContextBundleQuickLink {
    pub kind: QuickLinkType,
    pub label: String,
    pub path: Option<String>,
    pub direction: Option<NeighborDirection>,
    pub symbol_id: Option<String>,
    pub symbol_kind: Option<String>,
}

/// What a quick link points to.
#[derive(Debug, Clone, Copy, PartialEq, Eq, Structural)]
pub enum QuickLinkType {
    File,
    RelatedSymbol,
}

/// Where a snippet's text came from.
#[derive(Debug, Clone, Copy, PartialEq, Eq, Structural)]
pub enum SnippetSource {
    Chunk,
    Content,
}

/// Which end of an edge the neighbour is.
#[derive(Debug, Clone, Copy, PartialEq, Eq, Structural)]
pub enum NeighborDirection {
    Incoming,
    Outgoing,
}

} // verus!
