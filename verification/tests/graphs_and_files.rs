use std::path::{Path, PathBuf};

use index_mcp::ann::{
    ann_base_prefix, ann_directory, ann_files, file_stem, index_basename, index_info, indexed_vectors,
    mapping_text, read_mapping, sanitize_label,
};
use index_mcp::chunk::{chunk_content, fallback_fragment};
use index_mcp::decimal::{parse_signed, parse_unsigned, push_signed_decimal};
use index_mcp::doubles::{format_bytes, push_seconds, push_signed_seconds};
use index_mcp::embedding::{
    build_candle_backend, candle_batch_size, candle_which_for, embedder_cache_key, is_quantized_model,
    normalize_model_name, parse_fastembed_model, plan_embeddings, EmbeddingBackend,
    NativeEmbeddingRequest, Which,
};
use index_mcp::environment::{
    after_probe, cache_candidates, settle_cache, CacheStep, ModelCacheSource, ProbeOutcome,
    Surroundings,
};
use index_mcp::globs::{compile_globs, excluded_by_default, included_by_default, is_wanted};
use index_mcp::graph::stable_id;
use index_mcp::graph_neighbors::{
    choose_node, describe_selector, directions, node_query, normalize_limit, GraphNeighborsError,
    GraphNeighborDirection, GraphNodeSelector,
};
use index_mcp::graph_script::{
    build_script_graph, extract_graph, graph_source, GraphSource, ScriptEvent, ScriptScope,
};
use index_mcp::graph_source::{extract, find_matching_brace, SourceLanguage};
use index_mcp::index_status::{
    describe_index, history_limit, is_stale, missing_index, resolve_database_path, IndexFacts,
};
use index_mcp::ingest::{
    check_size, ingest_settings, is_binary, read_file, resolve_embedding_config,
    resolve_target_entries, select_file, EmbeddingParams, IngestParams,
};
use index_mcp::ingest_plan::{
    attach_embeddings, bytes_to_free, chunk_file, commit_from_output, deleted_paths,
    texts_to_embed,
};
use index_mcp::order::sort_texts;
use index_mcp::paths::{file_name, is_same_place, join_path, strip_dir, strip_prefix};
use index_mcp::score::{push_fine_score, push_score, round_score, Score};

fn strings(list: &[&str]) -> Vec<String> {
    list.iter().map(|text| text.to_string()).collect()
}

#[test]
fn sanitize_label_replaces_non_alphanumeric_chars() {
    assert_eq!(sanitize_label("foo"), "foo");
    assert_eq!(sanitize_label("foo/bar"), "foo_bar");
    assert_eq!(sanitize_label("a b@c"), "a_b_c");
    assert_eq!(sanitize_label(""), "ann");
}

#[test]
fn ann_base_prefix_sanitizes_all_components() {
    let prefix =
        ann_base_prefix("/tmp/.cache/index.sqlite", "BAAI/bge-base-en-v1.5", "onnx-quantized");
    assert!(prefix.starts_with("index-"), "unexpected prefix: {prefix}");
    assert!(prefix.contains("BAAI_bge-base-en-v1.5"), "missing model: {prefix}");
    assert!(prefix.ends_with("onnx-quantized"), "missing backend: {prefix}");
    assert!(!prefix.contains('/'));
}

#[test]
fn labels_are_stable() {
    assert_eq!(sanitize_label(&sanitize_label("a b/c")), sanitize_label("a b/c"));
}

#[test]
fn the_files_of_a_vector_index_lie_beside_the_database() {
    for path in ["/w/db.sqlite", "/db", "/", "", "db", "./db", ".", "./.", "a/./db/", "a/..", "a//b"] {
        let expected = match Path::new(path).parent() {
            Some(parent) => parent.join(".ann"),
            None => PathBuf::from(".ann"),
        };
        assert_eq!(ann_directory(path), expected.to_string_lossy());
    }
    assert_eq!(file_stem("/w/db.sqlite").as_deref(), Some("db"));
    let name = index_basename("prefix", "id");
    assert!(name.starts_with("prefix") && name.contains("id"));
    assert!(ann_files(&name).is_some());
    assert!(indexed_vectors(&[]).is_none());
}

#[test]
fn a_mapping_is_read_back() {
    let ids = strings(&["a:0", "b:1"]);
    assert_eq!(read_mapping(&mapping_text(&ids)), ids);
}

#[test]
fn rust_functions_and_calls_are_found() {
    let source = "pub fn outer() {\n    inner();\n}\n\nfn inner() {\n}\n";
    let graph = extract(SourceLanguage::Rust, "src/lib.rs", source).expect("functions");
    assert!(graph.nodes.iter().any(|node| node.name == "outer"));
    assert!(graph.nodes.iter().any(|node| node.name == "inner"));
    let outer = graph.nodes.iter().find(|node| node.name == "outer").unwrap();
    assert!(graph.edges.iter().any(|edge| edge.source_id == outer.id));
    for edge in &graph.edges {
        assert!(graph.nodes.iter().any(|node| node.id == edge.source_id));
        assert!(graph.nodes.iter().any(|node| node.id == edge.target_id));
    }
}

#[test]
fn python_and_swift_functions_are_found() {
    let python = extract(SourceLanguage::Python, "a.py", "def f(x):\n    g(x)\n").unwrap();
    assert!(python.nodes.iter().any(|node| node.name == "f"));
    let swift = extract(SourceLanguage::Swift, "a.swift", "func f() {\n    g()\n}\n").unwrap();
    assert!(swift.nodes.iter().any(|node| node.name == "f"));
    assert!(extract(SourceLanguage::Rust, "a.rs", "const A: u8 = 1;").is_none());
}

#[test]
fn scripts_are_taken_from_a_parser() {
    assert!(matches!(graph_source("a.ts"), Some(GraphSource::Script)));
    assert!(matches!(
        graph_source("a.rs"),
        Some(GraphSource::Patterns(SourceLanguage::Rust))
    ));
    assert!(graph_source("a.txt").is_none());
    let events = vec![
        ScriptEvent::Enter {
            scope: ScriptScope::Function,
            name: "f".to_string(),
            params: 1,
            is_async: false,
            is_generator: false,
            start: 0,
            end: 20,
        },
        ScriptEvent::Call { name: "g".to_string(), place: "10".to_string() },
        ScriptEvent::Leave,
    ];
    let graph = build_script_graph("a.ts", &events).unwrap();
    assert!(graph.nodes.iter().any(|node| node.name == "f"));
    assert_eq!(graph.edges.len(), 1);
    assert!(extract_graph("a.ts", "text", &None).is_none());
}

#[test]
fn identifiers_depend_on_every_part() {
    let a = stable_id(&strings(&["x", "y"]));
    assert_eq!(a, stable_id(&strings(&["x", "y"])));
    assert_ne!(a, stable_id(&strings(&["xy"])));
    assert_ne!(a, stable_id(&strings(&["y", "x"])));
}

#[test]
fn braces_match() {
    let chars: Vec<char> = "{ { } }".chars().collect();
    assert_eq!(find_matching_brace(&chars, 0), Some(7));
    assert_eq!(find_matching_brace(&chars, 2), Some(5));
    assert_eq!(find_matching_brace(&chars[..5], 0), None);
}

#[test]
fn texts_are_cut_into_chunks() {
    assert!(chunk_content("  \n ", 10, 2).is_empty());
    let one = chunk_content("  hello\nworld  ", 256, 32);
    assert_eq!(one.len(), 1);
    assert_eq!(one[0].content, "hello\nworld");
    assert_eq!((one[0].byte_start, one[0].byte_end), (0, 11));
    assert_eq!((one[0].line_start, one[0].line_end), (1, 2));
    let long = "word ".repeat(400);
    let many = chunk_content(&long, 64, 0);
    assert!(many.len() > 1);
    assert!(many.iter().all(|chunk| chunk.content.len() <= 256));
}

#[test]
fn numbers_are_written_and_read() {
    let mut out = String::new();
    push_signed_decimal(&mut out, i64::MIN);
    assert_eq!(out, "-9223372036854775808");
    assert_eq!(parse_unsigned("+42", 100), Some(42));
    assert_eq!(parse_unsigned("101", 100), None);
    assert_eq!(parse_signed("-7"), Some(-7));
    assert_eq!(parse_signed("x"), None);
}

#[test]
fn durations_and_sizes_read_as_floats_do() {
    for ms in [0u128, 5, 15, 25, 1_005, 1_500, 123_456_789, 9_007_199_254_740_993] {
        let mut out = String::new();
        push_seconds(&mut out, ms);
        assert_eq!(out, format!("{:.2}", ms as f64 / 1000.0));
    }
    for ms in [-5i64, -1_005, 750, i64::MAX] {
        let mut out = String::new();
        push_signed_seconds(&mut out, ms);
        assert_eq!(out, format!("{:.2}", ms as f64 / 1000.0));
    }
    assert_eq!(format_bytes(1_023), "1023 B");
    assert_eq!(format_bytes(1_024), "1.0 KiB");
    assert_eq!(format_bytes(10_485_760), "10.0 MiB");
    assert_eq!(format_bytes(1_288_490_189), "1.2 GiB");
}

#[test]
fn scores_read_as_floats_do() {
    for value in [
        0.0f32,
        0.005,
        0.125,
        0.375,
        0.87,
        0.92,
        0.995,
        1.0,
        2.5,
        -0.0,
        -0.004,
        -17.125,
        16_777_216.0,
        33_554_434.0,
        -1.0e30,
        f32::MAX,
        f32::MIN_POSITIVE,
        f32::INFINITY,
        f32::NEG_INFINITY,
        f32::NAN,
    ] {
        let score = Score { bits: value.to_bits() };
        let mut out = String::new();
        push_score(&mut out, score);
        assert_eq!(out, format!("{value:.2}"));
        let mut fine = String::new();
        push_fine_score(&mut fine, score);
        assert_eq!(fine, format!("{value:.4}"));
    }
    assert_eq!(round_score(Score { bits: 0.92f32.to_bits() }, 100), 92);
}

#[test]
fn models_are_named() {
    assert_eq!(
        candle_which_for("BAAI/bge-small-en-v1.5").unwrap(),
        Which::BgeSmallEnV15
    );
    assert!(candle_which_for("nothing").is_err());
    assert!(parse_fastembed_model("Xenova/bge-small-en-v1.5").is_ok());
    assert!(parse_fastembed_model("nothing").is_err());
    assert!(is_quantized_model("BGESmallENV15Q"));
    assert!(!is_quantized_model("BGESmallENV15"));
    let (name, explicit) = normalize_model_name(Some("  ".to_string()));
    assert_eq!(name, "Xenova/bge-small-en-v1.5");
    assert!(explicit.is_none());
    let backend = build_candle_backend("BAAI/bge-small-en-v1.5", Some(4)).unwrap();
    assert!(matches!(backend, EmbeddingBackend::Candle { .. }));
    let a = embedder_cache_key(&backend, "m", Some(1));
    let b = embedder_cache_key(&backend, "n", Some(1));
    assert_ne!(a, b);
}

#[test]
fn a_request_without_texts_runs_nothing() {
    let empty = NativeEmbeddingRequest { texts: Vec::new(), model: None, batch_size: None };
    assert!(plan_embeddings(empty).unwrap().is_none());
    let one =
        NativeEmbeddingRequest { texts: strings(&["a"]), model: None, batch_size: Some(7) };
    let run = plan_embeddings(one).unwrap().unwrap();
    assert_eq!(run.batch_size, Some(7));
    assert!(run.variant.is_none());
    let unknown = NativeEmbeddingRequest {
        texts: strings(&["a"]),
        model: Some("nothing".to_string()),
        batch_size: None,
    };
    assert!(plan_embeddings(unknown).is_err());
}

#[test]
fn caches_are_tried_in_order() {
    let surroundings = Surroundings {
        fastembed_dir: Some(" ".to_string()),
        model_dir: Some("cache".to_string()),
        home: Some("/home/me".to_string()),
        temp: "/tmp".to_string(),
        working_dir: Some("/w".to_string()),
    };
    let candidates = cache_candidates(&surroundings);
    let paths: Vec<&str> = candidates.iter().map(|c| c.path.as_str()).collect();
    assert_eq!(paths, vec!["/w/cache", "/home/me/.index-mcp/models", "/tmp/index-mcp/models"]);
    assert_eq!(candidates[0].source, ModelCacheSource::IndexMcpModelCacheDir);

    let mut diagnostics = Vec::new();
    assert!(matches!(
        after_probe(&candidates[0], ProbeOutcome::NotDirectory, &mut diagnostics),
        CacheStep::TryNext
    ));
    assert_eq!(diagnostics.len(), 1);
    assert!(matches!(
        after_probe(&candidates[1], ProbeOutcome::Ready, &mut diagnostics),
        CacheStep::Use
    ));
    let info = settle_cache(Some(&candidates[1]), diagnostics);
    assert_eq!(info.directory.as_deref(), Some("/home/me/.index-mcp/models"));
}

#[test]
fn globs_choose_files() {
    let included = compile_globs(&included_by_default()).unwrap();
    let excluded = compile_globs(&excluded_by_default()).unwrap();
    assert!(is_wanted(&included, &excluded, "src/main.rs"));
    assert!(!is_wanted(&included, &excluded, "a/node_modules/b.js"));
    assert!(compile_globs(&Vec::new()).unwrap().is_none());
    assert!(compile_globs(&strings(&["a["])).is_err());
    assert!(select_file("/w", "/w/src/main.rs", &included, &excluded).is_some());
    assert!(select_file("/w", "/w/node_modules/a.js", &included, &excluded).is_none());
    assert_eq!(
        select_file("/w", "/elsewhere/main.rs", &included, &excluded).as_deref(),
        Some("/elsewhere/main.rs")
    );
}

#[test]
fn paths_are_taken_below_a_directory() {
    assert_eq!(join_path("/a", "b"), "/a/b");
    assert_eq!(join_path("/a", "/b"), "/b");
    assert_eq!(strip_dir("/a", "/a/b//c/").as_deref(), Some("b//c"));
    assert_eq!(strip_dir("/a", "/ab"), None);
    assert_eq!(strip_prefix(".", "./b").as_deref(), Some("b"));
    assert_eq!(strip_prefix("a", "./a/b"), None);
    assert_eq!(strip_prefix("", "/a/b/").as_deref(), Some("/a/b"));
    assert_eq!(strip_prefix("a", "a").as_deref(), Some(""));
    for (dir, path) in [
        ("/a", "/a/b//c/"),
        ("/a", "/ab"),
        (".", "./b"),
        ("a", "./a/b"),
        ("", "/a/b/"),
        ("", "./."),
        ("a/./b", "a/b/c/."),
        ("/", "/x"),
        ("./", "./x/y"),
        ("a", "a"),
    ] {
        let expected = std::path::Path::new(path)
            .strip_prefix(dir)
            .ok()
            .map(|rest| rest.to_string_lossy().to_string());
        assert_eq!(strip_prefix(dir, path), expected, "{dir} {path}");
    }
    assert!(is_same_place("/a/./b/", "/a/b"));
    assert_eq!(file_name("/a/b.rs/").as_deref(), Some("b.rs"));
    assert_eq!(file_name("/a/.."), None);
    assert_eq!(sort_texts(strings(&["b", "a", "ab"])), strings(&["a", "ab", "b"]));
}

#[test]
fn a_request_is_settled() {
    let config = resolve_embedding_config(Some(EmbeddingParams {
        enabled: Some(false),
        backend: None,
        model: None,
        chunk_size_tokens: Some(10),
        chunk_overlap_tokens: Some(99),
        batch_size: Some(0),
    }));
    assert!(!config.enabled);
    assert_eq!((config.chunk_size_tokens, config.chunk_overlap_tokens), (10, 10));
    assert_eq!(config.batch_size, Some(1));
    let settings = ingest_settings(
        IngestParams {
            root: Some("sub".to_string()),
            included: None,
            excluded: None,
            database_name: None,
            max_file_size_bytes: None,
            store_file_content: None,
            paths: Some(strings(&["a.rs", " a.rs ", "/outside", ""])),
            auto_evict: None,
            max_database_size_bytes: None,
            embedding: None,
        },
        "/w",
    );
    assert_eq!(settings.root, "/w/sub");
    assert_eq!(settings.database_path, "/w/sub/.mcp-index.sqlite");
    assert_eq!(settings.targets.len(), 1);
    assert_eq!(settings.targets[0].relative, "a.rs");
    assert!(resolve_target_entries("/w", None).is_empty());
}

#[test]
fn files_are_read_or_skipped() {
    assert_eq!(check_size("a", Ok(5), Some(5)).unwrap(), 5);
    assert!(check_size("a", Ok(6), Some(5)).is_err());
    assert!(check_size("a", Err("gone".to_string()), None).is_err());
    assert!(is_binary(&[1, 0]));
    let file = read_file("a.rs".to_string(), 3, 7, Ok(b"abc".to_vec()), true).unwrap();
    assert_eq!(
        file.hash,
        "ba7816bf8f01cfea414140de5dae2223b00361a396177a9cb410ff61f20015ad"
    );
    assert_eq!(file.stored_content.as_deref(), Some("abc"));
    let hidden = read_file("a.rs".to_string(), 3, 7, Ok(b"abc".to_vec()), false).unwrap();
    assert!(hidden.stored_content.is_none());
    assert_eq!(hidden.text_content.as_deref(), Some("abc"));
    assert!(read_file("a".to_string(), 1, 1, Err("no".to_string()), true).is_err());

    let config = resolve_embedding_config(None);
    let chunks = chunk_file(&file, &config);
    assert_eq!(chunks.len(), 1);
    assert_eq!(chunks[0].id, "a.rs:0");
    assert_eq!(texts_to_embed(&chunks), strings(&["abc"]));
    let vector = vec![Score { bits: 1.0f32.to_bits() }];
    let stored = attach_embeddings(chunks, &vec![vector]);
    assert_eq!(stored.len(), 1);
    assert_eq!(stored[0].embedding, 1.0f32.to_le_bytes().to_vec());
    assert_eq!(stored[0].record.id, "a.rs:0");
}

#[test]
fn what_is_gone_is_deleted() {
    let existing = strings(&["a", "b", "c"]);
    let retained = strings(&["b"]);
    assert_eq!(deleted_paths(&existing, &retained, &Vec::new()), strings(&["a", "c"]));
    let targets = resolve_target_entries("/w", Some(strings(&["c", "d"])));
    assert_eq!(deleted_paths(&existing, &retained, &targets), strings(&["c"]));
    assert_eq!(bytes_to_free(100, 100, 80), None);
    assert_eq!(bytes_to_free(101, 100, 80), Some(21));
    assert_eq!(bytes_to_free(101, 0, 0), None);
    assert_eq!(commit_from_output(" abc\n").as_deref(), Some("abc"));
    assert_eq!(commit_from_output("\n"), None);
}

#[test]
fn the_state_of_an_index_is_told() {
    assert!(is_stale(&Some("b".to_string()), &Some("a".to_string())));
    assert!(!is_stale(&Some("a".to_string()), &Some("a".to_string())));
    assert_eq!(resolve_database_path("/w", Some("x.sqlite")), "/w/x.sqlite");
    assert_eq!(resolve_database_path("/w", None), "/w/.mcp-index.sqlite");
    assert!(history_limit(None) > 0);
    let missing = missing_index("/w/db".to_string(), None);
    assert!(!missing.database_exists);
    let response = describe_index(IndexFacts {
        database_path: "/w/db".to_string(),
        database_size_bytes: 10,
        total_files: 2,
        total_chunks: -1,
        total_graph_nodes: 0,
        total_graph_edges: 0,
        embedding_models: strings(&["m"]),
        ingestions: Vec::new(),
        commit_sha: Some("a".to_string()),
        indexed_at: Some("17".to_string()),
        current_commit_sha: Some("b".to_string()),
    });
    assert!(response.database_exists && response.is_stale);
    assert_eq!(response.indexed_at, Some(17));
    assert_eq!((response.total_files, response.total_chunks), (2, 0));
}

#[test]
fn nodes_of_the_graph_are_selected() {
    let selector = GraphNodeSelector {
        id: None,
        path: Some(Some("a.rs".to_string())),
        kind: Some("function".to_string()),
        name: "f".to_string(),
    };
    let (query, values) = node_query(&selector);
    assert!(query.starts_with("SELECT"));
    assert_eq!(values, strings(&["f", "a.rs", "function"]));
    assert!(describe_selector(&selector).contains('f'));
    assert!(matches!(
        choose_node(Vec::new(), &selector),
        Err(GraphNeighborsError::NodeNotFound { .. })
    ));
    assert_eq!(directions(Some(GraphNeighborDirection::Both)).len(), 2);
    assert_eq!(directions(Some(GraphNeighborDirection::Incoming)).len(), 1);
    assert_eq!(normalize_limit(Some(0)), 0);
    assert_eq!(normalize_limit(Some(500)), 100);
    assert_eq!(normalize_limit(None), 16);
}

#[test]
fn backends_are_labelled() {
    let candle = build_candle_backend("BAAI/bge-small-en-v1.5", Some(4)).unwrap();
    assert_eq!(candle.metadata_label(), "candle");
    assert_eq!(candle.cache_namespace(), "candle");
    assert!(!candle.is_quantized());
    let plain = EmbeddingBackend::FastEmbed {
        model_variant: "BGESmallENV15".to_string(),
        quantized: false,
    };
    assert_eq!(plain.metadata_label(), "onnx");
    let small = EmbeddingBackend::FastEmbed {
        model_variant: "BGESmallENV15Q".to_string(),
        quantized: true,
    };
    assert_eq!(small.metadata_label(), "onnx-quantized");
    assert!(small.is_quantized());
    assert_eq!(embedder_cache_key(&small, " m ", None), "fastembed::m::0");
    assert_eq!(candle_batch_size(None, None), 2_048);
    assert_eq!(candle_batch_size(Some(4), Some(8)), 4);
    assert_eq!(candle_batch_size(None, Some(8)), 8);
}

#[test]
fn an_index_names_its_mapping() {
    let info = index_info("base".to_string(), 384);
    assert_eq!(info.mapping_filename, "base.ids");
    assert_eq!(info.dimension, 384);
    let blank = fallback_fragment("  ");
    assert_eq!((blank.byte_end, blank.line_end), (0, 1));
    let whole = fallback_fragment(" a\nb ");
    assert_eq!((whole.content.as_str(), whole.byte_end, whole.line_end), ("a\nb", 3, 2));
}
