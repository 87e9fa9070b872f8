use index_mcp::bundle::{
    BundleDefinition, BundleFileMetadata, BundleSnippet, BundleUsageStats, ContextBundleQuickLink,
    ContextBundleResponse, QuickLinkType, SnippetSource,
};
use index_mcp::index_status::{IndexStatusIngestion, IndexStatusResponse};
use index_mcp::ingest::IngestResponse;
use index_mcp::score::Score;
use index_mcp::search::{
    Classification, ContextGoal, QueryIntent, SearchDiagnostics, SearchSource, SemanticSearchMatch,
    SemanticSearchResponse, SummaryMode,
};
use index_mcp::search_results::summarize_semantic_search;
use index_mcp::service_plan::{
    bundle_attachment_params, derive_bundle_params_from_search, failed_attachment, plan_lookup,
    plan_orchestration, resolve_lookup_mode, search_lookup, summarize_filters, AttachmentOutcome,
    AttachmentResult, AttachmentStage, LookupStep, SearchAttachmentAccumulator, SearchInclude,
    SharedBudget, SharedBudgetSpec, UnifiedSemanticSearchRequest,
};
use index_mcp::service_state::{
    CodeLookupParams, EnvironmentSnapshot, SemanticSearchRequest, DEFAULT_SEARCH_LIMIT_HINT,
    MIN_BUNDLE_BUDGET,
};
use index_mcp::service_suggest::{
    build_search_suggestions, compose_preview, snippet_preview, truncate_summary_line,
};
use index_mcp::service_summaries::{
    build_search_meta, derive_database_name_for_status, estimate_token_cost, short_sha,
    summarize_bundle, summarize_definition_metadata, summarize_index_status, summarize_ingest,
    summarize_ingest_with_status, summarize_search_result, summarize_snippets,
};

fn score(value: f32) -> Score {
    Score { bits: value.to_bits() }
}

fn ingest_response_with_paths(root: &str, database_path: &str) -> IngestResponse {
    IngestResponse {
        root: root.to_string(),
        database_path: database_path.to_string(),
        database_size_bytes: 0,
        ingested_file_count: 0,
        skipped: Vec::new(),
        deleted_paths: Vec::new(),
        duration_ms: 0,
        embedded_chunk_count: 0,
        embedding_model: None,
        embedding_backend: None,
        embedding_dimension: None,
        embedding_latency_ms: None,
        embedding_quantized: None,
        graph_node_count: 0,
        graph_edge_count: 0,
        evicted: None,
        reused_file_count: None,
    }
}

fn sample_match(path: &str, chunk_index: i32) -> SemanticSearchMatch {
    SemanticSearchMatch {
        path: path.to_string(),
        chunk_index,
        score: score(0.9),
        normalized_score: score(0.9),
        language: Some("Rust".to_string()),
        classification: Classification::Function,
        content: format!("fn sample_{chunk_index}() {{}}"),
        embedding_model: "mock".to_string(),
        byte_start: Some(0),
        byte_end: Some(16),
        line_start: Some(1),
        line_end: Some(1),
        context_before: None,
        context_after: None,
        source: SearchSource::Embedding,
        summary: None,
        symbol: None,
        identifier: None,
        source_type: None,
        metadata: None,
        confidence: score(0.9),
    }
}

fn snippet(content: &str, start: Option<i64>, end: Option<i64>) -> BundleSnippet {
    BundleSnippet {
        path: None,
        source: SnippetSource::Chunk,
        chunk_index: Some(0),
        content: content.to_string(),
        byte_start: Some(0),
        byte_end: Some(12),
        line_start: start,
        line_end: end,
        served_count: None,
        summary: None,
        symbol: None,
        identifier: None,
        source_type: None,
        metadata: None,
        score: None,
        similarity: None,
        embedding_model: None,
        embedding: None,
    }
}

fn sample_bundle_response() -> ContextBundleResponse {
    ContextBundleResponse {
        database_path: "db.sqlite".to_string(),
        file: BundleFileMetadata {
            path: "src/lib.rs".to_string(),
            size: 128,
            modified: 1_710_000_000,
            hash: "abc123".to_string(),
            last_indexed_at: 1_710_000_123,
            brief: None,
            content: None,
        },
        definitions: vec![BundleDefinition {
            id: "def-1".to_string(),
            name: "foo".to_string(),
            kind: "function".to_string(),
            signature: Some("fn foo()".to_string()),
            range_start: Some(1),
            range_end: Some(10),
            metadata: None,
            visibility: Some("pub".to_string()),
            docstring: None,
            todo_count: None,
        }],
        focus_definition: None,
        related: Vec::new(),
        snippets: vec![snippet("fn foo() {}", Some(1), Some(1))],
        latest_ingestion: None,
        warnings: vec!["No graph metadata".to_string()],
        quick_links: vec![ContextBundleQuickLink {
            kind: QuickLinkType::File,
            label: "src/lib.rs".to_string(),
            path: Some("src/lib.rs".to_string()),
            direction: None,
            symbol_id: None,
            symbol_kind: None,
        }],
        usage: BundleUsageStats {
            definitions_tokens: 10,
            snippet_tokens: 12,
            used_tokens: 22,
            budget_tokens: 3_000,
            remaining_tokens: 2_978,
            omitted_snippets: 0,
            excerpt_snippets: 0,
            summary_snippets: 0,
            cache_hit: false,
        },
        diagnostics: None,
    }
}

fn diagnostics(lexical: Option<u128>, total: u128) -> SearchDiagnostics {
    SearchDiagnostics {
        model: Some("custom-model".to_string()),
        backend: None,
        quantized: None,
        dimension: None,
        embedding_latency_ms: None,
        lexical_latency_ms: lexical,
        total_latency_ms: total,
        evaluated_chunk_count: Some(150),
        query_intent: None,
        intent_confidence: None,
        context_goals: Vec::new(),
        lexical_limit: None,
        embedding_limit: None,
        ann_candidate_count: None,
        clarification_reasons: Vec::new(),
    }
}

fn sample_semantic_response() -> SemanticSearchResponse {
    let mut hit = sample_match("src/main.rs", 0);
    hit.score = score(1.0);
    hit.normalized_score = score(0.92);
    hit.content = "fn example() {}".to_string();
    hit.embedding_model = "custom-model".to_string();
    hit.byte_start = Some(10);
    hit.byte_end = Some(20);
    hit.line_start = Some(44);
    hit.line_end = Some(47);
    hit.source = SearchSource::Lexical;
    hit.confidence = score(0.92);
    SemanticSearchResponse {
        database_path: "db.sqlite".to_string(),
        database_name: Some("db.sqlite".to_string()),
        embedding_model: Some("custom-model".to_string()),
        total_chunks: 200,
        evaluated_chunks: 150,
        results: vec![hit],
        summary_mode: SummaryMode::Brief,
        query_intent: Some(QueryIntent::Lexical),
        intent_confidence: Some(score(0.8)),
        context_goals: vec![ContextGoal::GeneralUnderstanding],
        clarification_prompts: Vec::new(),
        suggested_tools: Vec::new(),
        diagnostics: Some(diagnostics(Some(5), 25)),
    }
}

fn search_request(root: Option<&str>, query: &str) -> SemanticSearchRequest {
    SemanticSearchRequest {
        root: root.map(|text| text.to_string()),
        query: query.to_string(),
        database_name: None,
        limit: None,
        model: None,
        language: None,
        path_prefix: None,
        path_contains: None,
        classification: None,
        summary_mode: None,
        max_context_before: None,
        max_context_after: None,
    }
}

fn lookup_params() -> CodeLookupParams {
    CodeLookupParams {
        root: Some("/workspace".to_string()),
        database_name: Some("db.sqlite".to_string()),
        mode: None,
        query: None,
        file: None,
        symbol: None,
        ranges: None,
        focus_line: None,
        max_snippets: None,
        max_neighbors: None,
        budget_tokens: None,
        limit: None,
        model: None,
        language: None,
        path_prefix: None,
        path_contains: None,
        classification: None,
        summary_mode: None,
        max_context_before: None,
        max_context_after: None,
    }
}

#[test]
fn environment_defaults_fill_missing_semantic_fields() {
    let mut env = EnvironmentSnapshot::new();
    env.update_from_meta(
        "{\"cwd\": \"/workspace\", \"tokenUsage\": {\"remainingContextTokens\": 2048}}",
    );

    let mut request = search_request(None, "alpha");
    env.apply_semantic_defaults(&mut request);

    assert_eq!(request.root.as_deref(), Some("/workspace"));
    assert_eq!(request.limit, Some(DEFAULT_SEARCH_LIMIT_HINT));
    assert_eq!(request.summary_mode, Some(SummaryMode::Brief));
    assert_eq!(request.max_context_before, Some(1));
    assert_eq!(request.max_context_after, Some(1));
    assert_eq!(env.remaining_context_tokens, Some(2048));
}

#[test]
fn environment_is_read_from_a_nested_object() {
    let mut env = EnvironmentSnapshot::new();
    env.update_from_meta("{\"environment\": {\"cwd\": \"/inner\", \"bundleBudgetTokens\": 900}}");
    assert_eq!(env.cwd.as_deref(), Some("/inner"));
    assert_eq!(env.bundle_budget_override, Some(900));
    env.update_from_meta("{\"unrelated\": true}");
    assert_eq!(env.cwd.as_deref(), Some("/inner"));
    env.update_from_meta("{\"budgetTokens\": 700, \"remainingContextTokens\": 10}");
    assert_eq!(env.bundle_budget_override, Some(700));
    assert_eq!(env.remaining_context_tokens, Some(10));
}

#[test]
fn deduplicate_search_results_tracks_history() {
    let mut env = EnvironmentSnapshot::new();
    let first_batch = vec![
        sample_match("src/lib.rs", 0),
        sample_match("src/lib.rs", 0),
        sample_match("src/lib.rs", 1),
    ];
    let (retained, duplicates) = env.deduplicate_search_results(first_batch);
    assert_eq!(retained.len(), 2);
    assert_eq!(duplicates, 1);

    let second_batch = vec![sample_match("src/lib.rs", 0), sample_match("src/other.rs", 0)];
    let (retained_again, duplicates_again) = env.deduplicate_search_results(second_batch);
    assert_eq!(retained_again.len(), 1);
    assert_eq!(retained_again[0].path, "src/other.rs");
    assert_eq!(duplicates_again, 1);
}

#[test]
fn history_of_hits_is_bounded() {
    let mut env = EnvironmentSnapshot::new();
    let mut batch = Vec::new();
    for index in 0..40 {
        batch.push(sample_match("src/lib.rs", index));
    }
    let (retained, duplicates) = env.deduplicate_search_results(batch);
    assert_eq!(retained.len(), 40);
    assert_eq!(duplicates, 0);
    assert_eq!(env.recent_hits.len(), 32);
    assert_eq!(env.recent_hits[0].chunk_index, 8);
    assert_eq!(env.recent_hits[31].chunk_index, 39);
}

#[test]
fn of_results_that_were_all_delivered_before_the_last_comes_again() {
    let mut env = EnvironmentSnapshot::new();
    let batch = vec![sample_match("a.rs", 0), sample_match("a.rs", 1)];
    let (first, _) = env.deduplicate_search_results(batch.clone());
    assert_eq!(first.len(), 2);
    let (second, duplicates) = env.deduplicate_search_results(batch);
    assert_eq!(second.len(), 1);
    assert_eq!(second[0].chunk_index, 1);
    assert_eq!(duplicates, 1);
}

#[test]
fn summarize_ingest_reports_key_metrics() {
    let mut payload = ingest_response_with_paths("/workspace", "/workspace/.mcp-index.sqlite");
    payload.database_size_bytes = 1_024;
    payload.ingested_file_count = 3;
    payload.duration_ms = 1_500;
    payload.embedded_chunk_count = 42;
    payload.embedding_model = Some("Xenova/all-MiniLM-L6-v2".to_string());
    payload.embedding_backend = Some("onnx".to_string());
    payload.embedding_dimension = Some(384);
    payload.embedding_latency_ms = Some(250);
    payload.embedding_quantized = Some(false);
    payload.reused_file_count = Some(1);

    let summary = summarize_ingest(&payload);

    assert!(summary.contains("(42 chunk(s))"));
    assert!(summary.contains("Database size is 1.0 KiB."));
    assert!(summary.contains("Embedding model Xenova/all-MiniLM-L6-v2."));
    assert_eq!(
        summary,
        "Indexed 3 file(s) (42 chunk(s)) at /workspace in 1.50s. Database size is 1.0 KiB. \
         Embedding model Xenova/all-MiniLM-L6-v2. Reused cached embeddings for 1 unchanged file(s)."
    );
}

#[test]
fn summarize_ingest_counts_what_was_removed() {
    let mut payload = ingest_response_with_paths("/w", "/w/db");
    payload.deleted_paths = vec!["a".to_string()];
    assert_eq!(
        summarize_ingest(&payload),
        "Indexed 0 file(s) (0 chunk(s)) at /w in 0.00s. Database size is 0 B. Removed 1 stale entry."
    );
    payload.deleted_paths.push("b".to_string());
    assert!(summarize_ingest(&payload).ends_with(" Removed 2 stale entries."));
}

#[test]
fn summarize_index_status_highlights_stale_commit_delta() {
    let latest = IndexStatusIngestion {
        id: "ingest-1".to_string(),
        root: "/workspace".to_string(),
        started_at: 0,
        finished_at: 1,
        duration_ms: 750,
        file_count: 12,
        skipped_count: 0,
        deleted_count: 0,
    };

    let payload = IndexStatusResponse {
        database_path: "/workspace/.mcp-index.sqlite".to_string(),
        database_exists: true,
        database_size_bytes: Some(10_485_760),
        total_files: 64,
        total_chunks: 512,
        embedding_models: vec!["model-A".to_string(), "model-B".to_string()],
        total_graph_nodes: 0,
        total_graph_edges: 0,
        latest_ingestion: Some(latest.clone()),
        recent_ingestions: vec![latest],
        commit_sha: Some("aaaaaaaaaaaaaaaaaaaaaaaaaaaaaaaaaaaaaaaa".to_string()),
        indexed_at: Some(0),
        current_commit_sha: Some("bbbbbbbbbbbbbbbbbbbbbbbbbbbbbbbbbbbbbbbb".to_string()),
        is_stale: true,
    };

    let summary = summarize_index_status(&payload);

    assert!(summary.contains("Size 10.0 MiB."));
    assert!(summary.contains("Index is stale (stored aaaaaaa vs. workspace bbbbbbb)."));
    assert!(summary.contains("Embedding models: model-A, model-B."));
    assert!(summary.contains("Last ingest processed 12 file(s) in 0.75s."));
}

#[test]
fn an_ingestion_and_its_status_are_summed_up_together() {
    let mut ingest = ingest_response_with_paths("/workspace", "/workspace/.mcp-index.sqlite");
    ingest.database_size_bytes = 2_048;
    ingest.ingested_file_count = 5;
    ingest.duration_ms = 2_000;
    ingest.embedded_chunk_count = 128;
    let status = IndexStatusResponse {
        database_path: "/workspace/.mcp-index.sqlite".to_string(),
        database_exists: true,
        database_size_bytes: Some(2_048),
        total_files: 5,
        total_chunks: 128,
        embedding_models: vec!["model-A".to_string()],
        total_graph_nodes: 1,
        total_graph_edges: 2,
        latest_ingestion: None,
        recent_ingestions: Vec::new(),
        commit_sha: Some("aaaaaaaaaaaaaaaaaaaaaaaaaaaaaaaaaaaaaaaa".to_string()),
        indexed_at: Some(20),
        current_commit_sha: Some("aaaaaaaaaaaaaaaaaaaaaaaaaaaaaaaaaaaaaaaa".to_string()),
        is_stale: false,
    };
    let summary = summarize_ingest_with_status(&ingest, &status);
    assert!(summary.contains("Indexed 5 file(s)"));
    assert!(summary.contains("Database /workspace/.mcp-index.sqlite tracks 5 file(s)"));
    assert!(summary.contains("Index aligned with commit aaaaaaa."));
    assert!(summary.contains("No ingestion history recorded yet."));
}

#[test]
fn derive_database_name_respects_override_with_directories() {
    let ingest = ingest_response_with_paths("/workspace", "/workspace/indexes/custom.sqlite");
    let result =
        derive_database_name_for_status(&ingest, Some("indexes/custom.sqlite".to_string()));
    assert_eq!(result.as_deref(), Some("indexes/custom.sqlite"));
}

#[test]
fn derive_database_name_uses_relative_path_when_override_missing() {
    let ingest = ingest_response_with_paths("/workspace", "/workspace/indexes/custom.sqlite");
    let result = derive_database_name_for_status(&ingest, None);
    assert_eq!(result.as_deref(), Some("indexes/custom.sqlite"));
}

#[test]
fn derive_database_name_falls_back_to_file_name_outside_root() {
    let ingest = ingest_response_with_paths("/workspace", "/tmp/index.sqlite");
    let result = derive_database_name_for_status(&ingest, None);
    assert_eq!(result.as_deref(), Some("index.sqlite"));
}

#[test]
fn summarize_bundle_surfaces_primary_snippets_and_links() {
    let bundle = sample_bundle_response();
    let summary = summarize_bundle(&bundle);

    assert!(summary.contains(
        "Context bundle prepared for src/lib.rs with 1 definition(s) and 1 snippet(s)."
    ));
    assert!(summary.contains("Primary definition function foo."));
    assert!(summary.contains("Details: visibility pub."));
    assert!(summary.contains("Snippets: chunk line 1 (~3 token(s))."));
    assert!(summary.contains("First quick link: file src/lib.rs."));
    assert!(summary.contains("Warning: No graph metadata."));
}

#[test]
fn snippets_are_listed_up_to_three() {
    let mut bundle = sample_bundle_response();
    bundle.snippets = vec![
        snippet("abcd", Some(1), Some(2)),
        snippet("abcd", Some(3), None),
        snippet("abcd", None, None),
        snippet("abcde", Some(4), Some(4)),
    ];
    assert_eq!(
        summarize_snippets(&bundle).as_deref(),
        Some("Snippets: chunk lines 1-2, chunk line 3, chunk lines n/a, +1 more (~5 token(s)).")
    );
    bundle.snippets.clear();
    assert!(summarize_snippets(&bundle).is_none());
}

#[test]
fn definition_details_show_the_first_line_of_the_documentation() {
    let mut definition = sample_bundle_response().definitions.remove(0);
    definition.visibility = None;
    assert!(summarize_definition_metadata(&definition).is_none());
    definition.docstring = Some(format!("\n  {} tail\nnext", "word".repeat(24)));
    assert_eq!(
        summarize_definition_metadata(&definition),
        Some(format!("Details: doc {}....", "word".repeat(24)))
    );
}

#[test]
fn summarize_semantic_search_reports_top_hit_and_score() {
    let mut hit = sample_match("src/main.rs", 0);
    hit.score = score(0.92);
    hit.normalized_score = score(0.87);
    hit.content = "fn main() {}".to_string();
    hit.embedding_model = "custom-model".to_string();
    hit.byte_start = None;
    hit.byte_end = None;
    hit.line_start = Some(42);
    hit.line_end = Some(45);
    hit.confidence = score(0.87);
    let mut response = sample_semantic_response();
    response.total_chunks = 1_000;
    response.evaluated_chunks = 250;
    response.results = vec![hit];
    response.query_intent = Some(QueryIntent::Embedding);
    response.intent_confidence = Some(score(0.75));
    response.diagnostics = None;

    let summary = summarize_semantic_search(&response);

    assert!(summary.contains(
        "Semantic search scanned 250 chunk(s) and returned 1 match(es) (model custom-model)."
    ));
    assert!(summary.contains("Top hit: src/main.rs#L42 (confidence 0.87)."));
}

#[test]
fn summarize_semantic_search_reports_lexical_hits_and_confidence() {
    let mut response = sample_semantic_response();
    response.intent_confidence = Some(score(0.85));

    let summary = summarize_semantic_search(&response);

    assert!(summary.contains(
        "Semantic search scanned 150 chunk(s) and returned 1 match(es) (model custom-model)."
    ));
    assert!(summary.contains("1 lexical match(es) promoted ahead of semantic ranks."));
    assert!(summary.contains("Top hit: src/main.rs#L44 (confidence 0.92)."));
}

#[test]
fn summarize_semantic_search_includes_clarification_prompts() {
    let mut response = sample_semantic_response();
    response.clarification_prompts = vec!["Specify the target module or framework.".to_string()];

    let summary = summarize_semantic_search(&response);

    assert!(summary.contains("Clarify: Specify the target module or framework."));
}

#[test]
fn build_search_meta_captures_clarifications_and_goals() {
    let env = EnvironmentSnapshot::new();
    let mut response = sample_semantic_response();
    response.context_goals = vec![ContextGoal::Debugging];
    response.clarification_prompts = vec!["Provide the stack trace".to_string()];

    let meta = build_search_meta(&env, &response, 2);

    assert_eq!(meta.clarifications.len(), 1);
    assert_eq!(meta.clarifications[0], "Provide the stack trace");
    assert_eq!(meta.context_goals, vec![ContextGoal::Debugging]);
    assert_eq!(meta.duplicates_filtered, 2);
    assert_eq!(meta.estimated_token_cost, 4);
}

#[test]
fn token_cost_counts_the_lines_around_a_match() {
    let mut hit = sample_match("a.rs", 0);
    hit.content = "12345".to_string();
    hit.context_before = Some("1".to_string());
    hit.context_after = Some("123".to_string());
    assert_eq!(estimate_token_cost(&vec![hit]), 3);
    assert_eq!(estimate_token_cost(&Vec::new()), 0);
}

#[test]
fn attachment_lines_and_warnings_follow_the_search() {
    let response = sample_semantic_response();
    let text = summarize_search_result(
        &response,
        &vec!["bundle summary".to_string()],
        &vec!["bundle truncated".to_string(), "lookup skipped".to_string()],
    );
    let lines: Vec<&str> = text.lines().collect();
    assert_eq!(lines.len(), 3);
    assert_eq!(lines[1], "bundle summary");
    assert_eq!(lines[2], "Warnings: bundle truncated; lookup skipped");
}

#[test]
fn attachments_meta_omitted_when_empty() {
    let acc = SearchAttachmentAccumulator::default();
    assert!(acc.attachments_meta().is_none());
    assert!(acc.attachments_value().is_none());
}

#[test]
fn attachments_meta_serializes_successful_entries() {
    let mut acc = SearchAttachmentAccumulator::default();
    acc.bundle(AttachmentResult::Success {
        structured: "null".to_string(),
        meta: Some("{\"detail\":\"value\"}".to_string()),
        summary: "bundle".to_string(),
    });
    acc.lookup(AttachmentResult::Success {
        structured: "null".to_string(),
        meta: Some("{\"lookup\":1}".to_string()),
        summary: "lookup".to_string(),
    });

    let attachments = acc.attachments_meta().expect("meta present");
    let bundle: serde_json::Value =
        serde_json::from_str(attachments.bundle.as_deref().unwrap()).unwrap();
    let code: serde_json::Value =
        serde_json::from_str(attachments.code.as_deref().unwrap()).unwrap();
    assert_eq!(bundle.get("detail").and_then(|value| value.as_str()), Some("value"));
    assert_eq!(code.get("lookup").and_then(|value| value.as_i64()), Some(1));
    assert_eq!(acc.summary_lines(), vec!["bundle".to_string(), "lookup".to_string()]);
}

#[test]
fn attachments_that_came_to_nothing_leave_a_warning() {
    let mut acc = SearchAttachmentAccumulator::default();
    acc.bundle(failed_attachment(AttachmentStage::Bundle, "no file"));
    acc.lookup(AttachmentResult::Skipped { warning: "nothing to do".to_string() });
    assert_eq!(acc.warnings, vec!["bundle attachment failed: no file", "nothing to do"]);
    assert!(acc.bundle.outcome.is_failure());
    assert_eq!(acc.bundle.outcome.as_label(), "failed");
    assert_eq!(acc.lookup.outcome, AttachmentOutcome::Skipped);
    assert!(acc.attachments_value().is_none());
}

#[test]
fn shared_budget_hint_respects_limits() {
    let snapshot = EnvironmentSnapshot {
        cwd: None,
        bundle_budget_override: Some(1_800),
        remaining_context_tokens: Some(500),
        recent_hits: Vec::new(),
    };
    let shared =
        SharedBudget { total_tokens: Some(450), bundle_tokens: Some(800), lookup_tokens: None };
    assert_eq!(shared.bundle_budget_hint(&snapshot), Some(MIN_BUNDLE_BUDGET as u32));
}

#[test]
fn shared_budget_hint_prefers_bundle_token_cap() {
    let snapshot = EnvironmentSnapshot {
        cwd: None,
        bundle_budget_override: Some(2_000),
        remaining_context_tokens: None,
        recent_hits: Vec::new(),
    };
    let shared = SharedBudget { total_tokens: None, bundle_tokens: Some(750), lookup_tokens: None };
    assert_eq!(shared.bundle_budget_hint(&snapshot), Some(750));
}

#[test]
fn the_budget_keeps_three_fifths_of_what_is_left() {
    let mut snapshot = EnvironmentSnapshot::new();
    assert_eq!(snapshot.bundle_budget(), 2_000);
    snapshot.remaining_context_tokens = Some(2_001);
    assert_eq!(snapshot.bundle_budget(), 1_200);
    snapshot.remaining_context_tokens = Some(100);
    assert_eq!(snapshot.bundle_budget(), 600);
    snapshot.bundle_budget_override = Some(10);
    assert_eq!(snapshot.bundle_budget(), 600);
}

#[test]
fn derive_bundle_params_require_search_results() {
    let search = SemanticSearchRequest {
        database_name: Some("db.sqlite".to_string()),
        ..search_request(Some("/workspace"), "alpha")
    };
    let mut response = sample_semantic_response();
    response.results.clear();

    let err = derive_bundle_params_from_search(&search, &SharedBudget::default(), &response)
        .unwrap_err();
    assert!(err.contains("no results"));
}

#[test]
fn a_bundle_is_built_around_the_first_match() {
    let snapshot = EnvironmentSnapshot::new();
    let mut response = sample_semantic_response();
    response.results[0].line_start = Some(47);
    response.results[0].line_end = Some(44);
    let params = bundle_attachment_params(
        &snapshot,
        &search_request(Some("/workspace"), "alpha"),
        &SharedBudget::default(),
        None,
        &response,
    )
    .unwrap();
    assert_eq!(params.file, "src/main.rs");
    assert_eq!(params.focus_line, Some(47));
    let ranges = params.ranges.unwrap();
    assert_eq!((ranges[0].start_line, ranges[0].end_line), (44, 47));
    assert_eq!(params.budget_tokens, Some(2_000));
    assert_eq!(params.max_snippets, Some(2));
    assert_eq!(params.max_neighbors, Some(6));
    assert_eq!(params.query.as_deref(), Some("alpha"));
    assert_eq!(params.context_goals, Some(vec![ContextGoal::GeneralUnderstanding]));
}

#[test]
fn attachments_are_planned_from_the_request() {
    let request = UnifiedSemanticSearchRequest {
        search: search_request(None, "alpha"),
        attachments: SearchInclude { bundle: false, lookup: false },
        bundle: None,
        lookup: Some(lookup_params()),
        shared_budget: Some(SharedBudgetSpec {
            total_tokens: Some(1),
            search_tokens: Some(2),
            bundle_tokens: Some(3),
            lookup_tokens: Some(4),
            deadline_ms: None,
        }),
    };
    let plan = plan_orchestration(request);
    assert!(!plan.should_run_bundle());
    assert!(plan.should_run_lookup());
    assert_eq!(
        plan.shared_budget,
        SharedBudget { total_tokens: Some(1), bundle_tokens: Some(3), lookup_tokens: Some(4) }
    );
    assert_eq!(SearchInclude::default(), SearchInclude { bundle: true, lookup: true });
}

#[test]
fn resolve_lookup_mode_defaults() {
    let base = lookup_params();
    assert_eq!(resolve_lookup_mode(&base), "search");

    let mut file_mode = base.clone();
    file_mode.file = Some("src/lib.rs".to_string());
    assert_eq!(resolve_lookup_mode(&file_mode), "bundle");

    let mut explicit = base.clone();
    explicit.mode = Some("search".to_string());
    explicit.query = Some("alpha".to_string());
    assert_eq!(resolve_lookup_mode(&explicit), "search");
}

#[test]
fn code_lookup_infers_bundle_mode_from_file_path_when_mode_missing() {
    let env = EnvironmentSnapshot::new();
    let mut params = lookup_params();
    params.root = None;
    params.database_name = None;
    params.file = Some("src/lib.rs".to_string());

    env.apply_code_lookup_defaults(&mut params);

    assert_eq!(resolve_lookup_mode(&params), "bundle");
}

#[test]
fn a_lookup_is_skipped_where_it_asks_for_nothing() {
    let env = EnvironmentSnapshot::new();
    let search = search_request(Some("/workspace"), "alpha");
    let response = sample_semantic_response();

    let blank = plan_lookup(&env, &search, lookup_params(), &response);
    assert!(matches!(
        blank,
        LookupStep::Skip { warning }
            if warning == "lookup attachment skipped: query required for search mode"
    ));

    let mut bundle = lookup_params();
    bundle.mode = Some("bundle".to_string());
    assert!(matches!(
        plan_lookup(&env, &search, bundle, &response),
        LookupStep::Skip { warning }
            if warning == "lookup attachment skipped: bundle mode requires a file path"
    ));

    let mut other = lookup_params();
    other.mode = Some("graph".to_string());
    assert!(matches!(
        plan_lookup(&env, &search, other, &response),
        LookupStep::Skip { warning }
            if warning == "lookup attachment skipped: mode 'graph' is not supported."
    ));
}

#[test]
fn a_lookup_reuses_the_search_or_builds_a_bundle() {
    let env = EnvironmentSnapshot::new();
    let search = search_request(Some("/workspace"), "alpha");
    let response = sample_semantic_response();
    let mut usual = search_lookup(&search, &SharedBudget::default());
    usual.language = Some(" rust ".to_string());
    match plan_lookup(&env, &search, usual, &response) {
        LookupStep::Reuse { mode, filters } => {
            assert_eq!(mode, "search");
            assert_eq!(filters.unwrap().language.as_deref(), Some(" rust "));
        }
        other => panic!("unexpected step {other:?}"),
    }

    let mut file = lookup_params();
    file.file = Some("src/lib.rs".to_string());
    file.limit = Some(9);
    match plan_lookup(&env, &search, file, &response) {
        LookupStep::Bundle { mode, params } => {
            assert_eq!(mode, "bundle");
            assert_eq!(params.file, "src/lib.rs");
            assert_eq!(params.max_snippets, Some(9));
            assert_eq!(params.query.as_deref(), Some("alpha"));
        }
        other => panic!("unexpected step {other:?}"),
    }
}

#[test]
fn blank_filters_are_left_out() {
    assert!(summarize_filters(&None, &Some("  ".to_string()), &None, None).is_none());
    let filters = summarize_filters(
        &Some(" ".to_string()),
        &Some("src".to_string()),
        &None,
        Some(Classification::Code),
    )
    .unwrap();
    assert!(filters.language.is_none());
    assert_eq!(filters.path_prefix.as_deref(), Some("src"));
    assert_eq!(filters.classification, Some(Classification::Code));
}

#[test]
fn build_search_suggestions_embed_ranges_and_focus_line() {
    let snapshot = EnvironmentSnapshot {
        cwd: Some("/workspace".to_string()),
        bundle_budget_override: Some(1_600),
        remaining_context_tokens: Some(3_200),
        recent_hits: Vec::new(),
    };
    let mut hit = sample_match("src/lib.rs", 7);
    hit.score = score(0.91);
    hit.normalized_score = score(0.82);
    hit.content = "fn sample() { /* ... */ }".to_string();
    hit.line_start = Some(40);
    hit.line_end = Some(44);
    let mut response = sample_semantic_response();
    response.results = vec![hit];

    let suggestions = build_search_suggestions(&snapshot, &response);
    assert_eq!(suggestions.len(), 1);
    let suggestion = &suggestions[0];
    assert_eq!(suggestion.tool, "context_bundle");
    assert_eq!(suggestion.parameters.focus_line, Some(42));
    let ranges = suggestion.parameters.ranges.as_ref().expect("ranges");
    assert_eq!(ranges.len(), 1);
    assert_eq!(ranges[0].start_line, 38);
    assert_eq!(ranges[0].end_line, 46);
    assert_eq!(suggestion.parameters.root.as_deref(), Some("/workspace"));
    assert_eq!(suggestion.parameters.budget_tokens, Some(1_600));
    assert_eq!(suggestion.description.as_deref(), Some("src/lib.rs:38-46"));
    assert_eq!(suggestion.preview.as_deref(), Some("fn sample() { /* ... */ }"));
    assert_eq!(suggestion.rank, 1);
}

#[test]
fn at_most_three_tools_are_suggested() {
    let snapshot = EnvironmentSnapshot::new();
    let mut response = sample_semantic_response();
    response.results = vec![
        sample_match("a.rs", 0),
        sample_match("b.rs", 0),
        sample_match("c.rs", 0),
        sample_match("d.rs", 0),
    ];
    response.results[1].line_start = None;
    let suggestions = build_search_suggestions(&snapshot, &response);
    assert_eq!(suggestions.len(), 3);
    assert_eq!(suggestions[1].description.as_deref(), Some("b.rs"));
    assert!(suggestions[1].parameters.ranges.is_none());
    assert_eq!(suggestions[2].rank, 3);
    assert_eq!(suggestions[0].description.as_deref(), Some("a.rs:1-3"));
}

#[test]
fn previews_are_one_line_and_cut() {
    assert!(snippet_preview(" \n ", None).is_none());
    assert_eq!(
        snippet_preview("third\nfourth", Some("first\nsecond")).as_deref(),
        Some("first second third")
    );
    let long = "x".repeat(200);
    assert_eq!(compose_preview(&vec![long]), format!("{}...", "x".repeat(160)));
    assert_eq!(truncate_summary_line("word word", 5), "word...");
    assert_eq!(truncate_summary_line("word", 5), "word");
    assert_eq!(short_sha("0123456789"), "0123456");
}
