use index_mcp::score::Score;
use index_mcp::search::{
    ChunkRow, Classification, ContextGoal, ModelChoiceError, QueryIntent, SearchResultCoordinate,
    SearchSource, SemanticSearchMatch, SemanticSearchParams, SummaryMode,
};
use index_mcp::search_lexical::{
    collect_lexical_matches, core_identifier, escape_like_pattern, lexical_plan, lexical_score,
    like_pattern, LexicalQuery, SearchFilter,
};
use index_mcp::search_query::{
    context_paddings, detect_context_goals, is_identifier_query, leading_intents, normalize_limit,
    query_signals, resolve_requested_model, settle_intent, should_run_lexical,
    should_search_embeddings, QueryAnalysis, SearchBudgetProfile,
};
use index_mcp::search_results::{
    blob_to_vec, build_clarification_prompts, chunk_to_pending, embedding_to_bytes, finish_match,
    match_location, rank_candidates,
};
use index_mcp::search_run::{answer_search, merge_matches, plan_search, SearchOutcome};
use index_mcp::search_text::{
    classify_snippet, detect_language, extract_context, extract_focus_span, trim_with_ellipsis,
};

const MODEL: &str = "Xenova/all-MiniLM-L6-v2";

fn score(value: f32) -> Score {
    Score { bits: value.to_bits() }
}

fn blob(values: &[f32]) -> Vec<u8> {
    values.iter().flat_map(|value| value.to_le_bytes()).collect()
}

fn sample_chunk(path: &str) -> ChunkRow {
    ChunkRow {
        id: "chunk-1".to_string(),
        path: path.to_string(),
        chunk_index: 0,
        content: "fn example() { 42; }".to_string(),
        summary: None,
        symbol: None,
        identifier: None,
        source_type: Some("code".to_string()),
        language: Some("rust".to_string()),
        metadata_raw: None,
        embedding_blob: blob(&[1.0, 0.0]),
        embedding_model: MODEL.to_string(),
        byte_start: Some(0),
        byte_end: Some(18),
        line_start: Some(1),
        line_end: Some(1),
    }
}

fn no_filter() -> SearchFilter {
    SearchFilter { classification: None, path_prefix: None, path_contains: None, language: None }
}

fn semantic_match(confidence: f32) -> SemanticSearchMatch {
    SemanticSearchMatch {
        path: "src/lib.rs".to_string(),
        chunk_index: 0,
        score: score(confidence),
        normalized_score: score(confidence),
        language: Some("Rust".to_string()),
        classification: Classification::Code,
        content: "fn sample() {}".to_string(),
        embedding_model: "mock".to_string(),
        byte_start: Some(0),
        byte_end: Some(16),
        line_start: Some(10),
        line_end: Some(12),
        context_before: None,
        context_after: None,
        source: SearchSource::Embedding,
        summary: None,
        symbol: None,
        identifier: None,
        source_type: None,
        metadata: None,
        confidence: score(confidence),
    }
}

/// The analysis of a query of one plain word.
fn plain_word_analysis(query: &str) -> QueryAnalysis {
    QueryAnalysis {
        primary_intent: QueryIntent::Hybrid,
        lexical_weight: score(0.4),
        embedding_weight: score(0.35),
        confidence: score(0.4),
        goals: detect_context_goals(query),
    }
}

#[test]
fn identifier_query_short_circuits_embedding() {
    let params = SemanticSearchParams {
        root: Some("/workspace".to_string()),
        query: "EnvironmentSnapshot::bundle_budget".to_string(),
        database_name: Some("default.sqlite".to_string()),
        limit: Some(3),
        model: None,
        language: None,
        path_prefix: None,
        path_contains: None,
        classification: None,
        summary_mode: Some(SummaryMode::Brief),
        max_context_before: None,
        max_context_after: None,
        recent_hits: None,
    };
    let plan = plan_search(params).expect("the query is not blank");
    assert!(plan.identifier_query);

    let content = "impl EnvironmentSnapshot { fn bundle_budget(&self) -> usize { 1024 } }";
    let row = ChunkRow {
        id: "chunk-1".to_string(),
        path: "crates/index-mcp-server/src/service.rs".to_string(),
        chunk_index: 0,
        content: content.to_string(),
        summary: Some("bundle_budget".to_string()),
        symbol: Some("EnvironmentSnapshot::bundle_budget".to_string()),
        identifier: Some("EnvironmentSnapshot::bundle_budget".to_string()),
        source_type: None,
        language: Some("Rust".to_string()),
        metadata_raw: None,
        embedding_blob: vec![0u8; 4],
        embedding_model: MODEL.to_string(),
        byte_start: Some(0),
        byte_end: Some(content.len() as i64),
        line_start: Some(1),
        line_end: Some(3),
    };
    let lexical = collect_lexical_matches(&[row], plan.limit, &plan.filter);
    assert_eq!(lexical.len(), 1);

    // The weights of an identifier with a path separator: 0.35 lexical against 0.8 graph.
    let analysis = QueryAnalysis {
        primary_intent: QueryIntent::Graph,
        lexical_weight: score(0.35 / 1.15),
        embedding_weight: score(0.0),
        confidence: score(0.8 / 1.15),
        goals: detect_context_goals(plan.query.as_str()),
    };
    assert!(!should_search_embeddings(
        plan.identifier_query,
        lexical.len(),
        analysis.embedding_weight,
        plan.limit
    ));

    let merged = merge_matches(lexical, Vec::new(), plan.limit, plan.limit);
    let results: Vec<SemanticSearchMatch> = merged
        .into_iter()
        .map(|pending| finish_match(pending, None, SummaryMode::Brief, 0, 0, score(1.0)))
        .collect();
    let profile = SearchBudgetProfile::for_analysis(
        plan.limit,
        plan.lexical_hint,
        plan.identifier_query,
        &analysis,
        1,
    );
    let response = answer_search(
        plan.query.as_str(),
        plan.limit,
        analysis,
        profile,
        SearchOutcome {
            database_path: "/workspace/default.sqlite".to_string(),
            database_name: "default.sqlite".to_string(),
            model: MODEL.to_string(),
            total_chunks: 1,
            evaluated_chunks: 0,
            results,
            summary_mode: SummaryMode::Brief,
            backend: Some("onnx-quantized".to_string()),
            quantized: Some("true".to_string()),
            dimension: Some("384".to_string()),
            embedding_latency_ms: None,
            lexical_latency_ms: Some(0),
            total_latency_ms: 1,
            ann_candidate_count: None,
        },
    );
    let diagnostics = response.diagnostics.expect("diagnostics");
    assert!(diagnostics.embedding_latency_ms.is_none());
    assert_eq!(diagnostics.evaluated_chunk_count, Some(0));
    assert_eq!(response.evaluated_chunks, 0);
    assert_eq!(response.results.len(), 1);
    assert!(matches!(response.results[0].source, SearchSource::Lexical));
    assert_eq!(
        response.results[0].identifier.as_deref(),
        Some("EnvironmentSnapshot::bundle_budget")
    );
    assert!(diagnostics.lexical_latency_ms.is_some());
}

#[test]
fn chunk_to_pending_respects_filters() {
    let chunk = sample_chunk("src/lib.rs");
    let mut seen_hits: Vec<SearchResultCoordinate> = Vec::new();
    let filter = SearchFilter {
        classification: Some(Classification::Function),
        path_prefix: Some("src".to_string()),
        path_contains: Some("lib".to_string()),
        language: Some("rust".to_string()),
    };
    let pending = chunk_to_pending(&chunk, score(1.0), &filter, &mut seen_hits)
        .expect("chunk should pass filters");

    assert_eq!(pending.path, "src/lib.rs");
    assert!(matches!(pending.classification, Classification::Function));
    assert!(seen_hits
        .iter()
        .any(|hit| hit.path == chunk.path && hit.chunk_index == chunk.chunk_index));
}

#[test]
fn chunk_to_pending_rejects_duplicates_and_mismatched_paths() {
    let chunk = sample_chunk("src/lib.rs");
    let mut seen_hits: Vec<SearchResultCoordinate> = Vec::new();

    let first = chunk_to_pending(&chunk, score(1.0), &no_filter(), &mut seen_hits);
    assert!(first.is_some());

    let second = chunk_to_pending(&chunk, score(1.0), &no_filter(), &mut seen_hits);
    assert!(second.is_none());

    let mut fresh_seen: Vec<SearchResultCoordinate> = Vec::new();
    let filter = SearchFilter { path_prefix: Some("tests".to_string()), ..no_filter() };
    let filtered = chunk_to_pending(&chunk, score(1.0), &filter, &mut fresh_seen);
    assert!(filtered.is_none());
    assert!(fresh_seen.is_empty());
}

#[test]
fn clarification_prompts_trigger_for_empty_result_sets() {
    let analysis = plain_word_analysis("alpha");
    let (prompts, reasons) = build_clarification_prompts("alpha", &analysis, &[], &[], 6, true);
    assert!(!prompts.is_empty());
    assert!(reasons.iter().any(|reason| reason == "no_results"));
}

#[test]
fn clarification_prompts_skip_for_confident_results() {
    let analysis = plain_word_analysis("beta");
    let result = semantic_match(0.92);
    let (prompts, reasons) =
        build_clarification_prompts("beta", &analysis, &[], &[result], 6, true);
    assert!(prompts.is_empty());
    assert!(reasons.is_empty());
}

#[test]
fn what_is_no_number_wins_no_comparison() {
    let mut analysis = plain_word_analysis("beta");
    let results = [semantic_match(f32::NAN), semantic_match(0.2)];
    let (_, reasons) = build_clarification_prompts("beta", &analysis, &[], &results, 2, true);
    assert_eq!(reasons, vec!["low_confidence".to_string()]);
    analysis.confidence = score(f32::NAN);
    let sure = [semantic_match(0.92)];
    let (_, reasons) = build_clarification_prompts("beta", &analysis, &[], &sure, 2, true);
    assert!(reasons.is_empty());
    assert_eq!(settle_intent(QueryIntent::Graph, score(f32::NAN)), QueryIntent::Graph);
    assert!(should_search_embeddings(true, 1, score(f32::NAN), 3));
    assert!(!should_search_embeddings(true, 1, score(0.2), 3));

    let mut candidates = Vec::new();
    for (index, value) in [0.5f32, f32::NAN, 0.1, 0.9].iter().enumerate() {
        let mut chunk = sample_chunk("src/lib.rs");
        chunk.chunk_index = index as i32;
        let mut seen = Vec::new();
        candidates.push(chunk_to_pending(&chunk, score(*value), &no_filter(), &mut seen).unwrap());
    }
    let order: Vec<i32> =
        rank_candidates(candidates, 4).iter().map(|pending| pending.chunk_index).collect();
    assert_eq!(order, vec![3, 1, 0, 2]);
}

#[test]
fn classify_snippet_flags_swift_functions() {
    let snippet = "public func greet(name: String) -> String { return \"Hi\" }";
    assert_eq!(classify_snippet(snippet), Classification::Function);
}

#[test]
fn classify_snippet_handles_swift_init() {
    let snippet = "public convenience init?(rawValue: String) { self.init() }";
    assert_eq!(classify_snippet(snippet), Classification::Function);
}

#[test]
fn classify_snippet_handles_swift_deinit() {
    let snippet = "deinit { cleanup() }";
    assert_eq!(classify_snippet(snippet), Classification::Function);
}

#[test]
fn classify_snippet_treats_comment_with_func_as_comment() {
    let snippet = "// func pretend() {}";
    assert_eq!(classify_snippet(snippet), Classification::Comment);
}

#[test]
fn a_blank_query_has_no_plan() {
    let params = SemanticSearchParams {
        root: None,
        query: " \t ".to_string(),
        database_name: None,
        limit: None,
        model: None,
        language: None,
        path_prefix: None,
        path_contains: None,
        classification: None,
        summary_mode: None,
        max_context_before: None,
        max_context_after: None,
        recent_hits: None,
    };
    assert!(plan_search(params).is_none());
}

#[test]
fn limits_and_paddings_are_bounded() {
    assert_eq!(normalize_limit(None), 6);
    assert_eq!(normalize_limit(Some(5)), 5);
    assert_eq!(normalize_limit(Some(1000)), 50);
    let (before, after) = context_paddings(Some(0), Some(100));
    assert_eq!(before, 0);
    assert!(after < 100);
}

#[test]
fn a_model_is_chosen_or_refused() {
    let one = vec!["m".to_string()];
    assert_eq!(resolve_requested_model(None, &one).unwrap(), "m");
    let two = vec!["m".to_string(), "n".to_string()];
    assert!(matches!(
        resolve_requested_model(None, &two),
        Err(ModelChoiceError::MultipleModels { .. })
    ));
    assert!(matches!(
        resolve_requested_model(Some("x".to_string()), &two),
        Err(ModelChoiceError::ModelNotFound { requested, .. }) if requested == "x"
    ));
}

#[test]
fn queries_are_told_apart() {
    assert!(is_identifier_query("module::name"));
    assert!(!is_identifier_query("how does this work"));
    assert!(should_run_lexical("module::name"));
    let signals = query_signals("Why did it panic?", false);
    assert!(signals.literal);
    assert!(signals.question);
    assert!(!signals.documentation);
    let goals = detect_context_goals("debug the panic");
    assert!(goals.contains(&ContextGoal::Debugging));
    assert_eq!(detect_context_goals("alpha"), vec![ContextGoal::GeneralUnderstanding]);
}

#[test]
fn the_leading_intent_needs_a_clear_lead() {
    let (intent, first, second) =
        leading_intents(score(0.2), score(0.5), score(0.3), score(0.0));
    assert_eq!(intent, QueryIntent::Embedding);
    assert_eq!((first, second), (1, 2));
    assert_eq!(settle_intent(intent, score(0.2)), QueryIntent::Embedding);
    assert_eq!(settle_intent(intent, score(0.1)), QueryIntent::Hybrid);
}

#[test]
fn patterns_escape_what_is_special() {
    assert_eq!(escape_like_pattern("a%b_c\\d"), "a\\%b\\_c\\\\d");
    assert_eq!(like_pattern("50%"), "%50\\%%");
}

#[test]
fn an_identifier_is_looked_up_by_its_parts() {
    assert_eq!(core_identifier("a::b").as_deref(), Some("b"));
    let (queries, fetch) = lexical_plan("a::b", 3);
    assert_eq!(fetch, 12);
    assert!(matches!(&queries[0], LexicalQuery::IdentifierIs { value } if value == "a::b"));
    let (none, _) = lexical_plan("a::b", 0);
    assert!(none.is_empty());
}

#[test]
fn lexical_scores_fall_with_the_rank() {
    assert_eq!(lexical_score(0), score(1.0));
    assert!(f32::from_bits(lexical_score(1).bits) < f32::from_bits(lexical_score(0).bits));
}

#[test]
fn vectors_are_read_back() {
    let vector = vec![score(1.5), score(-0.25), score(0.0)];
    let bytes = embedding_to_bytes(&vector);
    assert_eq!(bytes, blob(&[1.5, -0.25, 0.0]));
    assert_eq!(blob_to_vec(&bytes), vector);
    assert!(blob_to_vec(&bytes[..5]).len() < 2);
}

#[test]
fn the_best_candidates_stay() {
    let mut candidates = Vec::new();
    for (index, value) in [0.1f32, 0.9, 0.5].iter().enumerate() {
        let mut chunk = sample_chunk("src/lib.rs");
        chunk.id = format!("chunk-{index}");
        chunk.chunk_index = index as i32;
        let mut seen = Vec::new();
        candidates.push(chunk_to_pending(&chunk, score(*value), &no_filter(), &mut seen).unwrap());
    }
    let top = rank_candidates(candidates, 2);
    assert_eq!(top.len(), 2);
    assert!(top.iter().all(|pending| pending.chunk_index != 0));
}

#[test]
fn text_around_a_match_is_cut_out() {
    let lines: Vec<String> = ["one", "two", "three", "four"].iter().map(|l| l.to_string()).collect();
    let (before, after) = extract_context(Some(&lines), Some(2), Some(3), 1, 1);
    assert_eq!(before.as_deref(), Some("one"));
    assert_eq!(after.as_deref(), Some("four"));
    assert_eq!(
        extract_focus_span(Some(&lines), Some(2), Some(3)).as_deref(),
        Some("two\nthree")
    );
    assert_eq!(trim_with_ellipsis("abcdef", 4), "abc…");
    assert_eq!(detect_language("src/lib.rs").as_deref(), Some("Rust"));
    assert_eq!(match_location("a.rs", Some(3)), "a.rs#L3");
}
