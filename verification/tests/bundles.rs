use index_mcp::bundle::{
    BundleDefinition, BundleEdgeNeighbor, BundleFileMetadata, BundleSnippet,
    ContextBundleResponse, LineRange, NeighborDirection, NeighborNode, SnippetSource,
    SymbolSelector,
};
use index_mcp::bundle_budget::{
    build_file_brief, estimate_tokens, trim_snippets_to_budget, truncate_to_char_limit,
};
use index_mcp::bundle_build::{
    assemble_bundle, bundle_cache_key, clean_query, neighbor_limit, normalize_file, snippet_limit,
    sort_ranges, token_budget, BundleCache, BundleCacheKey, BundleParts,
};
use index_mcp::bundle_graph::{
    build_quick_links, count_todos, determine_visibility, extract_docstring, extract_identifier,
    find_focus_definition, gather_warnings, keep_metadata, neighbor_lookups,
};
use index_mcp::bundle_snippets::{
    base_score, build_focus_snippet, choose_snippets, compute_line_offsets, requested_snippets,
    snippet_key, snippet_semantic_weight, SnippetOrigin,
};
use index_mcp::score::Score;

fn build_snippet(content: &str) -> BundleSnippet {
    BundleSnippet {
        path: None,
        source: SnippetSource::Content,
        chunk_index: Some(0),
        content: content.to_string(),
        byte_start: Some(0),
        byte_end: Some(content.len() as i64),
        line_start: Some(1),
        line_end: Some(content.lines().count() as i64),
        served_count: None,
        summary: None,
        symbol: None,
        identifier: None,
        source_type: None,
        metadata: None,
        score: None,
        similarity: None,
        embedding_model: None,
        embedding: None,
    }
}

fn definition(name: &str, kind: &str) -> BundleDefinition {
    BundleDefinition {
        id: format!("id-{name}"),
        name: name.to_string(),
        kind: kind.to_string(),
        signature: None,
        range_start: None,
        range_end: None,
        metadata: None,
        visibility: None,
        docstring: None,
        todo_count: None,
    }
}

fn bundle_of(path: &str, snippets: Vec<BundleSnippet>) -> ContextBundleResponse {
    assemble_bundle(BundleParts {
        database_path: "db".to_string(),
        file: BundleFileMetadata {
            path: path.to_string(),
            size: 1,
            modified: 2,
            hash: "h".to_string(),
            last_indexed_at: 3,
            brief: None,
            content: None,
        },
        file_content: None,
        definitions: Vec::new(),
        focus_definition: None,
        related: Vec::new(),
        snippets,
        neighbor_snippets: Vec::new(),
        snippet_warnings: Vec::new(),
        latest_ingestion: None,
        budget_tokens: 3_000,
        targeted: true,
        query: None,
        embedding_model: None,
        embedding_backend: None,
        embedding_latency_ms: None,
    })
}

fn key_of_file(path: &str) -> BundleCacheKey {
    bundle_cache_key(
        "db".to_string(),
        path.to_string(),
        "h".to_string(),
        None,
        Vec::new(),
        None,
        3,
        3_000,
        12,
        None,
    )
}

#[test]
fn the_bundles_used_last_are_found() {
    let mut cache = BundleCache::new(2);
    cache.put(key_of_file("a"), bundle_of("a", Vec::new()));
    cache.put(key_of_file("b"), bundle_of("b", Vec::new()));
    let found = cache.get(&key_of_file("a")).expect("a was stored");
    assert_eq!(found.file.path, "a");
    assert!(found.usage.cache_hit);
    assert!(cache.get(&key_of_file("x")).is_none());
    cache.put(key_of_file("c"), bundle_of("c", Vec::new()));
    assert!(cache.get(&key_of_file("b")).is_none());
    assert!(cache.get(&key_of_file("a")).is_some());
    cache.put(key_of_file("a"), bundle_of("again", Vec::new()));
    assert_eq!(cache.get(&key_of_file("a")).map(|found| found.file.path.as_str()), Some("again"));
    cache.put(key_of_file("d"), bundle_of("d", Vec::new()));
    assert!(cache.get(&key_of_file("c")).is_none());

    let mut single = BundleCache::new(0);
    single.put(key_of_file("a"), bundle_of("a", Vec::new()));
    assert!(single.get(&key_of_file("a")).is_some());
    single.put(key_of_file("b"), bundle_of("b", Vec::new()));
    assert!(single.get(&key_of_file("a")).is_none());
}

#[test]
fn similarities_span_a_range() {
    let range_of = |values: &[f32]| {
        let snippets = values
            .iter()
            .enumerate()
            .map(|(index, value)| {
                let mut snippet = build_snippet("fn a() {}");
                snippet.chunk_index = Some(index as i32);
                snippet.byte_start = Some(100 * index as i64);
                snippet.line_start = Some(10 * index as i64);
                snippet.similarity = Some(Score { bits: value.to_bits() });
                snippet
            })
            .collect();
        let diagnostics = bundle_of("a", snippets).diagnostics.expect("there are similarities");
        let value = |score: Option<Score>| f32::from_bits(score.expect("a similarity").bits);
        (value(diagnostics.similarity_min), value(diagnostics.similarity_max))
    };
    assert_eq!(range_of(&[0.5, -0.25, 0.75]), (-0.25, 0.75));
    assert_eq!(range_of(&[0.5, f32::NAN, 0.25]), (0.25, 0.5));
    assert!(range_of(&[f32::NAN, 0.25]).0.is_nan());
}

#[test]
fn trims_to_summary_when_budget_is_tight() {
    let long_content = "fn example() {\n    println!(\"hello world\");\n}\n".repeat(40);
    let snippets = vec![build_snippet(&long_content)];

    let (result, usage, warnings) = trim_snippets_to_budget(snippets, &[], 60);

    assert_eq!(result.len(), 1);
    let content = &result[0].content;
    assert!(content.starts_with("Summary:"), "content: {content}");
    assert!(warnings.iter().any(|warning| warning.contains("summaries")));
    assert!(warnings.iter().any(|warning| warning.contains("Token usage")));
    assert_eq!(usage.summary_snippets, 1);
    assert!(usage.snippet_tokens > 0);
}

#[test]
fn upgrades_to_excerpt_when_budget_allows() {
    let long_content = (0..500)
        .map(|idx| format!("println!(\"line {idx}\");"))
        .collect::<Vec<_>>()
        .join("\n");
    let snippets = vec![build_snippet(&long_content)];

    let (result, usage, warnings) = trim_snippets_to_budget(snippets, &[], 360);

    assert_eq!(result.len(), 1);
    let content = &result[0].content;
    assert!(content.contains("... (excerpt truncated)"), "content: {content}");
    assert!(warnings.iter().any(|warning| warning.contains("focused excerpts")));
    assert_eq!(usage.excerpt_snippets, 1);
    assert!(usage.snippet_tokens > 0);
}

#[test]
fn a_snippet_is_kept_whole_where_that_costs_more() {
    let (result, _, _) = trim_snippets_to_budget(vec![build_snippet("fn a() {}")], &[], 3_000);
    assert_eq!(result[0].content, "Summary: fn a() {}");
    let long = "let value = compute_the_next_value(1);\n".repeat(30);
    let (whole, usage, _) = trim_snippets_to_budget(vec![build_snippet(&long)], &[], 3_000);
    assert_eq!(whole[0].content, long);
    assert_eq!(usage.snippet_tokens, estimate_tokens(&long));
    assert_eq!(usage.remaining_tokens, 3_000 - estimate_tokens(&long));
    let (none, empty_usage, warnings) = trim_snippets_to_budget(Vec::new(), &[], 10);
    assert!(none.is_empty() && warnings.is_empty());
    assert_eq!(empty_usage.used_tokens, 0);
}

#[test]
fn tokens_count_every_four_bytes() {
    assert_eq!(estimate_tokens(""), 0);
    assert_eq!(estimate_tokens("abcd"), 1);
    assert_eq!(estimate_tokens("abcde"), 2);
    assert_eq!(truncate_to_char_limit("abcdef", 3).chars().count() <= 4, true);
    assert!(build_file_brief("").is_none());
}

#[test]
fn limits_of_a_bundle_are_bounded() {
    assert_eq!(snippet_limit(None), 3);
    assert_eq!(snippet_limit(Some(100)), 10);
    assert_eq!(neighbor_limit(None), 12);
    assert_eq!(neighbor_limit(Some(100)), 50);
    assert_eq!(token_budget(None, None), 3_000);
    assert_eq!(token_budget(None, Some(" 5000 ")), 5_000);
    assert_eq!(token_budget(None, Some("plenty")), 3_000);
    assert_eq!(token_budget(Some(700), Some("5000")), 700);
    assert_eq!(clean_query(Some("  ".to_string())), None);
    assert_eq!(clean_query(Some(" a ".to_string())).as_deref(), Some("a"));
    assert_eq!(normalize_file("a\\b"), "a/b");
}

#[test]
fn keys_of_the_cache_do_not_depend_on_the_order_of_ranges() {
    let range = |start: u32, end: u32| LineRange { start_line: start, end_line: end };
    let sorted = sort_ranges(vec![range(5, 9), range(1, 3)]);
    assert_eq!(sorted, vec![range(1, 3), range(5, 9)]);
    let make = |ranges: Vec<LineRange>| {
        bundle_cache_key(
            "db".to_string(),
            "f".to_string(),
            "h".to_string(),
            None,
            ranges,
            None,
            3,
            3_000,
            12,
            Some("q".to_string()),
        )
    };
    assert!(make(vec![range(5, 9), range(1, 3)]).same_as(&make(vec![range(1, 3), range(5, 9)])));
    assert!(!make(vec![range(1, 3)]).same_as(&make(vec![range(1, 4)])));
}

#[test]
fn a_focus_line_is_shown_with_its_surroundings() {
    let content = (1..=100).map(|n| format!("line {n}")).collect::<Vec<_>>().join("\n");
    let offsets = compute_line_offsets(&content);
    let snippet = build_focus_snippet(&content, &offsets, 50).expect("the line is there");
    assert_eq!((snippet.line_start, snippet.line_end), (Some(25), Some(75)));
    assert!(snippet.content.contains("line 50"));
    let last = build_focus_snippet(&content, &offsets, 500).expect("the last line stands in");
    assert_eq!((last.line_start, last.line_end), (Some(75), Some(100)));
    assert!(build_focus_snippet("", &compute_line_offsets(""), 1).is_none());
}

#[test]
fn ranges_outside_a_file_leave_a_warning() {
    let (shown, warnings) = requested_snippets(
        &[LineRange { start_line: 1, end_line: 2 }, LineRange { start_line: 90, end_line: 99 }],
        None,
        Some("a\nb\nc"),
    );
    assert_eq!(shown.len(), 1);
    assert_eq!(shown[0].snippet.line_start, Some(1));
    assert_eq!(warnings.len(), 1);
}

#[test]
fn the_best_snippets_are_chosen_once() {
    let a = build_snippet("fn a() {}");
    let mut b = build_snippet("fn b() {}");
    b.byte_start = Some(100);
    b.byte_end = Some(120);
    b.line_start = Some(10);
    b.line_end = Some(12);
    let again = build_snippet("fn a() {}");
    let chosen = choose_snippets(vec![a, b, again], "src/lib.rs", 5);
    assert_eq!(chosen.len(), 2);
    assert_ne!(snippet_key(&chosen[0], "src/lib.rs"), snippet_key(&chosen[1], "src/lib.rs"));
    let names = |first: f32, second: f32| {
        let mut low = build_snippet("low");
        low.score = Some(Score { bits: first.to_bits() });
        let mut high = build_snippet("high");
        high.byte_start = Some(100);
        high.line_start = Some(10);
        high.score = Some(Score { bits: second.to_bits() });
        let chosen = choose_snippets(vec![low, high], "src/lib.rs", 5);
        chosen.iter().map(|snippet| snippet.content.clone()).collect::<Vec<_>>()
    };
    assert_eq!(names(1.0, 2.0), ["high", "low"]);
    assert_eq!(names(1.0, f32::NAN), ["low", "high"]);
    assert!(snippet_semantic_weight("fn a() {}") >= snippet_semantic_weight("plain words"));
    assert!(
        base_score(SnippetOrigin::Range, &chosen[0], None)
            != base_score(SnippetOrigin::Stored, &chosen[0], None)
    );
}

#[test]
fn a_definition_is_found_by_name_and_kind() {
    let definitions = vec![definition("Foo", "struct"), definition("foo", "function")];
    let found = find_focus_definition(
        &definitions,
        SymbolSelector { name: "FOO".to_string(), kind: Some("Function".to_string()) },
    );
    assert_eq!(found.unwrap().name, "foo");
    assert!(find_focus_definition(
        &definitions,
        SymbolSelector { name: "bar".to_string(), kind: None }
    )
    .is_none());
}

#[test]
fn definitions_are_described_from_the_text() {
    let source = "/// Adds.\npub fn add() {\n    // TODO one\n    // FIXME two\n}\n";
    let start = source.find("pub").unwrap() as i64;
    assert_eq!(
        determine_visibility(source, Some(start), "function", None).as_deref(),
        Some("internal")
    );
    let exported = "// c\nexport function f() {}";
    assert_eq!(determine_visibility(exported, Some(5), "function", None).as_deref(), Some("public"));
    assert_eq!(extract_docstring(source, Some(start)).as_deref(), Some("Adds."));
    assert_eq!(count_todos(source, Some(start), Some(source.len() as i64)), Some(2));
}

#[test]
fn metadata_is_read_as_json() {
    assert_eq!(keep_metadata(Some("{\"a\":1}".to_string())).as_deref(), Some("{\"a\":1}"));
    assert!(keep_metadata(Some("{".to_string())).is_none());
    assert_eq!(
        extract_identifier(&Some("{\"identifier\":\"x::y\"}".to_string())).as_deref(),
        Some("x::y")
    );
    assert!(extract_identifier(&Some("[]".to_string())).is_none());
}

#[test]
fn links_lead_to_the_file_and_its_neighbours() {
    let neighbor = BundleEdgeNeighbor {
        id: "e".to_string(),
        kind: "calls".to_string(),
        direction: NeighborDirection::Outgoing,
        metadata: None,
        source_path: Some("a.rs".to_string()),
        target_path: Some("b.rs".to_string()),
        neighbor: NeighborNode {
            id: "n".to_string(),
            path: Some("b.rs".to_string()),
            kind: "function".to_string(),
            name: "callee".to_string(),
            signature: None,
            range_start: Some(0),
            range_end: Some(10),
            metadata: None,
        },
    };
    let links = build_quick_links("a.rs", &[definition("f", "function")], &[neighbor], None);
    assert_eq!(links[0].path.as_deref(), Some("a.rs"));
    assert!(links.len() >= 2 && links.len() <= 16);
    assert_eq!(gather_warnings(&[], None).len(), 2);
    assert!(gather_warnings(&[definition("f", "function")], Some("text")).is_empty());
}

#[test]
fn a_neighbour_without_a_path_cannot_be_looked_up() {
    let neighbor = BundleEdgeNeighbor {
        id: "e".to_string(),
        kind: "calls".to_string(),
        direction: NeighborDirection::Outgoing,
        metadata: None,
        source_path: None,
        target_path: None,
        neighbor: NeighborNode {
            id: "n".to_string(),
            path: None,
            kind: "function".to_string(),
            name: "callee".to_string(),
            signature: None,
            range_start: None,
            range_end: None,
            metadata: None,
        },
    };
    assert!(neighbor_lookups(&neighbor).is_err());
}
