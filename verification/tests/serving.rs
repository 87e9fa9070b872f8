use index_mcp::debug_report::{
    determine_sections, goes_on, locate_candidate, log_lines, Section, SectionExecution,
};
use index_mcp::instructions::{render_instruction, ROOT_PLACEHOLDER};
use index_mcp::line_server::{
    default_prompts, find_name, find_prompt, holds_request, route, Route, RpcProblem,
    INTERNAL_ERROR, INVALID_PARAMS, METHOD_NOT_FOUND, PARSE_ERROR,
};
use index_mcp::lookup::{
    create_snippet, escape_like, fetched_message, is_cuttable, matches_message, not_found_message,
    plan_snapshot_lookup, search_pattern, truncate, LookupPlan, SearchMatch, SnippetOutcome,
};
use index_mcp::remote_proxy::{
    auth_variable, clean_description, client_headers, has_remote_servers, resolve_auth_headers,
    AuthConfig, Header, RemoteProxyError, RemoteServerConfig, RetryConfig, RetryPolicy, RetryStep,
};
use index_mcp::scan::{
    build_globset, collect_requested, collect_scan_jobs, not_a_directory, refuse_large,
    sanitize_requested_path, scan_file, scan_result, to_relative_posix, ScanOutcome, Walked,
};
use index_mcp::service_errors::{
    convert_ingest_error, convert_repository_timeline_error, convert_semantic_search_error,
    ContextBundleError, ErrorKind, IngestError, SemanticSearchError,
};
use index_mcp::settings::{
    choose_log_dir, choose_log_filter, console_enabled, default_directives, log_file, parse_bool,
    watcher_options, Args, Config, ConfigSurroundings, LogLevel, WatchArguments,
};
use index_mcp::snapshot::{
    classify_entry, exclude_patterns, include_patterns, keeps_entry, make_record,
    oversize_message, relative_entry, size_limit, snapshot_database, snapshot_message,
    snapshot_options, snapshot_status, tally, EntryOutcome, EntryStep, FileTime, IngestArgs,
    IngestOptions, IngestRun, IngestSummary,
};
use index_mcp::watcher::{
    normalize_relative_path, paths_to_follow, should_track, watch_context, watch_ingest_params,
    WatchState, WatcherError, WatcherOptions,
};

fn strings(list: &[&str]) -> Vec<String> {
    list.iter().map(|text| text.to_string()).collect()
}

fn server(auth: Option<AuthConfig>) -> RemoteServerConfig {
    RemoteServerConfig {
        name: "docs".to_string(),
        namespace: None,
        url: "http://localhost/sse".to_string(),
        headers: Vec::new(),
        auth,
        retry: None,
    }
}

#[test]
fn remote_tools_carry_their_namespace() {
    let mut config = server(None);
    assert_eq!(config.namespace(), "docs");
    assert_eq!(config.tool_name("search"), "docs.search");
    config.namespace = Some("d".to_string());
    assert_eq!(config.tool_name("search"), "d.search");
    assert!(has_remote_servers(&Some("[]".to_string())));
    assert!(!has_remote_servers(&Some("  ".to_string())));
    assert!(!has_remote_servers(&None));
    assert_eq!(clean_description("a \n\t b  c"), "a b c");
}

#[test]
fn bearer_tokens_are_sent_as_headers() {
    let held = AuthConfig::Bearer {
        token: None,
        token_env: Some("DOCS_TOKEN".to_string()),
        header: None,
    };
    assert_eq!(auth_variable(&held).as_deref(), Some("DOCS_TOKEN"));
    let config = server(Some(held));
    let header = resolve_auth_headers(&config, Some("abc".to_string())).unwrap().unwrap();
    assert_eq!((header.name.as_str(), header.value.as_str()), ("authorization", "Bearer abc"));
    let kept = resolve_auth_headers(&config, Some("Bearer abc".to_string())).unwrap().unwrap();
    assert_eq!(kept.value, "Bearer abc");
    let missing = resolve_auth_headers(&config, None);
    assert!(matches!(
        missing,
        Err(RemoteProxyError::Auth(text))
            if text == "Bearer auth for docs requires token or tokenEnv"
    ));
    assert!(resolve_auth_headers(&server(None), None).unwrap().is_none());
}

#[test]
fn header_names_are_lowered_and_bad_ones_refused() {
    let given = |name: &str, value: Option<&str>| {
        server(Some(AuthConfig::Header {
            header: name.to_string(),
            value: value.map(|text| text.to_string()),
            value_env: None,
        }))
    };
    let header = resolve_auth_headers(&given("X-Key", Some("v")), None).unwrap().unwrap();
    assert_eq!((header.name.as_str(), header.value.as_str()), ("x-key", "v"));
    assert!(resolve_auth_headers(&given("bad name", Some("v")), None).is_err());
    assert!(resolve_auth_headers(&given("x", Some("line\nbreak")), None).is_err());
    assert!(matches!(
        resolve_auth_headers(&given("x", None), None),
        Err(RemoteProxyError::Auth(text)) if text == "Header auth for docs requires value or valueEnv"
    ));
}

#[test]
fn unusable_headers_are_left_out() {
    let mut config = server(None);
    config.headers = vec![
        Header { name: "X-One".to_string(), value: "1".to_string() },
        Header { name: "bad name".to_string(), value: "2".to_string() },
    ];
    let headers = client_headers(&config, None).unwrap();
    assert_eq!(headers.len(), 1);
    assert_eq!((headers[0].name.as_str(), headers[0].value.as_str()), ("x-one", "1"));
}

#[test]
fn retries_are_bounded() {
    let policy = RetryPolicy::from_config(Some(&RetryConfig {
        max_attempts: Some(0),
        initial_delay_ms: Some(700),
        max_delay_ms: Some(100),
    }));
    assert_eq!((policy.max_attempts, policy.max_delay_ms), (1, 700));
    let usual = RetryPolicy::from_config(None);
    let mut state = usual.start();
    assert_eq!(state.delay_nanos, 500_000_000);
    assert!(matches!(
        usual.after_failure(&mut state, true),
        RetryStep::RetryAfter(500_000_000)
    ));
    usual.grow(&mut state, 1_000_000_000);
    assert!(matches!(
        usual.after_failure(&mut state, true),
        RetryStep::RetryAfter(1_000_000_000)
    ));
    usual.grow(&mut state, 50_000_000_000);
    assert_eq!(state.delay_nanos, 10_000_000_000);
    assert!(matches!(usual.after_failure(&mut state, true), RetryStep::GiveUp));
    let mut fresh = usual.start();
    assert!(matches!(usual.after_failure(&mut fresh, false), RetryStep::GiveUp));
}

#[test]
fn problems_with_remote_servers_are_told() {
    assert!(RemoteProxyError::Transport("x".to_string()).is_retryable());
    assert!(RemoteProxyError::ClientInit("x".to_string()).is_retryable());
    assert!(RemoteProxyError::Service { message: "x".to_string(), transient: true }.is_retryable());
    assert!(!RemoteProxyError::Service { message: "x".to_string(), transient: false }
        .is_retryable());
    assert!(!RemoteProxyError::Auth("x".to_string()).is_retryable());
    let transport = RemoteProxyError::Transport("down".to_string()).into_mcp();
    assert_eq!(transport.kind, ErrorKind::InternalError);
    assert_eq!(transport.message, "Remote transport error: down");
    let config = RemoteProxyError::Config("bad".to_string()).into_mcp();
    assert_eq!(config.kind, ErrorKind::InvalidParams);
    assert_eq!(config.message, "Invalid remote configuration: bad");
}

#[test]
fn watched_paths_are_taken_below_the_root() {
    assert_eq!(normalize_relative_path("/w", "/w/a/b.rs").as_deref(), Some("a/b.rs"));
    assert_eq!(normalize_relative_path("/w", "a.rs").as_deref(), Some("a.rs"));
    assert_eq!(normalize_relative_path("/w", "/w"), None);
    assert_eq!(normalize_relative_path("/w", "/x/a.rs"), None);
}

#[test]
fn a_watcher_follows_what_is_not_excluded() {
    let options = WatcherOptions {
        root: ".".to_string(),
        database_name: "db.sqlite".to_string(),
        debounce_ms: 500,
        run_initial: true,
        quiet: false,
    };
    let refused = WatcherOptions { database_name: "a[".to_string(), ..options.clone() };
    assert!(matches!(
        watch_context(&refused, "/w".to_string()),
        Err(WatcherError::Notify(message)) if message.contains("a[")
    ));
    let context = watch_context(&options, "/w".to_string()).unwrap_or_else(|_| panic!("globs"));
    assert!(should_track(&context, "src/a.rs"));
    assert!(!should_track(&context, "db.sqlite-wal"));
    assert_eq!(
        paths_to_follow(&context, &strings(&["/w/a.rs", "/w/db.sqlite", "/x/b.rs"])),
        strings(&["a.rs"])
    );
    let all = watch_ingest_params(&context, Vec::new());
    assert!(all.paths.is_none());
    assert_eq!(all.root.as_deref(), Some("/w"));
    assert_eq!(watch_ingest_params(&context, strings(&["a.rs"])).paths, Some(strings(&["a.rs"])));
    let problem = WatcherError::InvalidRoot { path: "/p".to_string(), source: "gone".to_string() };
    assert_eq!(problem.message(), "failed to resolve watch root '/p': gone");
}

#[test]
fn one_ingest_runs_at_a_time() {
    let mut state = WatchState::new();
    assert!(!state.record(false, &Vec::new()));
    assert!(state.record(false, &strings(&["a", "b"])));
    assert!(state.record(true, &strings(&["a"])));
    assert_eq!(state.changed_paths, strings(&["b"]));
    assert_eq!(state.removed_paths, strings(&["a"]));
    let mut targets = state.begin().expect("nothing runs yet");
    targets.sort();
    assert_eq!(targets, strings(&["a", "b"]));
    assert!(state.changed_paths.is_empty() && state.removed_paths.is_empty());
    assert!(state.begin().is_none());
    assert!(state.finish());
    assert!(state.begin().is_some());
    assert!(!state.finish());
}

#[test]
fn levels_read_back_and_order() {
    for level in [LogLevel::Error, LogLevel::Warn, LogLevel::Info, LogLevel::Debug, LogLevel::Trace]
    {
        assert_eq!(LogLevel::parse(level.as_str()).unwrap().precedence(), level.precedence());
    }
    assert_eq!(LogLevel::parse("Warning").unwrap().as_str(), "WARN");
    assert_eq!(LogLevel::parse("Loud").err().as_deref(), Some("Unknown log level: loud"));
    assert!(LogLevel::Info.admits(LogLevel::Error));
    assert!(!LogLevel::Info.admits(LogLevel::Debug));
    assert_eq!("trace".parse::<LogLevel>().unwrap().precedence(), 4);
}

#[test]
fn settings_come_from_arguments_then_surroundings() {
    let none = Args { working_dir: None, database: None, log_level: None };
    let bare = ConfigSurroundings {
        working_dir: None,
        current_dir: None,
        database: None,
        log_level: None,
    };
    let usual = Config::from_args(&none, &bare).unwrap();
    assert_eq!(usual.working_dir, ".");
    assert_eq!(usual.default_database_name, ".mcp-index.sqlite");
    assert_eq!(usual.log_level.as_str(), "INFO");
    let held = ConfigSurroundings {
        working_dir: Some("/env".to_string()),
        current_dir: Some("/cwd".to_string()),
        database: Some("env.sqlite".to_string()),
        log_level: Some("loud".to_string()),
    };
    assert!(Config::from_args(&none, &held).is_err());
    let given = Args {
        working_dir: None,
        database: Some("arg.sqlite".to_string()),
        log_level: Some("debug".to_string()),
    };
    let mixed = Config::from_args(&given, &held).unwrap();
    assert_eq!(mixed.working_dir, "/env");
    assert_eq!(mixed.default_database_name, "arg.sqlite");
    assert_eq!(mixed.log_level.as_str(), "DEBUG");
}

#[test]
fn logging_is_set_up() {
    assert_eq!(parse_bool(" YES "), Some(true));
    assert_eq!(parse_bool("off"), Some(false));
    assert_eq!(parse_bool("maybe"), None);
    assert!(console_enabled(&None));
    assert!(!console_enabled(&Some("0".to_string())));
    assert_eq!(choose_log_filter(&None, &Some("warn".to_string()), "info"), "warn");
    assert_eq!(choose_log_filter(&Some("debug".to_string()), &None, "info"), "debug");
    assert_eq!(choose_log_filter(&None, &None, "info"), "info");
    assert_eq!(default_directives("info").len(), 3);
    assert_eq!(
        default_directives("HF_HUB=trace"),
        strings(&["rmcp::service=info", "rmcp::handler::server=info"])
    );
    assert_eq!(choose_log_dir(&Some("  ".to_string())), None);
    assert_eq!(choose_log_dir(&Some(" logs ".to_string())).as_deref(), Some("logs"));
    assert_eq!(log_file("logs").0, "logs/index-mcp.log");
    assert_eq!(log_file("logs/a.txt").0, "logs/a.txt");
}

#[test]
fn a_watcher_waits_at_least_a_moment() {
    let arguments = WatchArguments {
        cwd: Some("/cwd".to_string()),
        watch_root: None,
        watch_debounce: Some(1),
        watch_no_initial: true,
        watch_quiet: true,
        watch_database: None,
    };
    let options = watcher_options(&arguments);
    assert_eq!(options.root, "/cwd");
    assert_eq!(options.debounce_ms, 50);
    assert!(!options.run_initial && options.quiet);
    assert_eq!(options.database_name, ".mcp-index.sqlite");
}

#[test]
fn lookups_are_planned() {
    assert!(matches!(
        plan_snapshot_lookup(false, None, None, None),
        LookupPlan::Refuse(text) if text == "No index available. Run ingest_codebase first."
    ));
    assert!(matches!(
        plan_snapshot_lookup(true, Some("a".to_string()), Some("q".to_string()), None),
        LookupPlan::Fetch(path) if path == "a"
    ));
    assert!(matches!(
        plan_snapshot_lookup(true, None, Some("q".to_string()), None),
        LookupPlan::Search { query, limit: 10 } if query == "q"
    ));
    assert!(matches!(
        plan_snapshot_lookup(true, None, None, Some(3)),
        LookupPlan::Refuse(text) if text == "Either path or query is required."
    ));
}

#[test]
fn snippets_surround_the_match() {
    assert_eq!(escape_like("50%_\\"), "50\\%\\_\\\\");
    assert_eq!(search_pattern("a%"), "%a\\%%");
    let text = format!("{}Needle\n{}", "x".repeat(200), "y".repeat(200));
    match create_snippet(&text, "needle") {
        SnippetOutcome::Shown(snippet) => {
            assert_eq!(snippet.len(), 120 + 6 + 120);
            assert!(snippet.contains("Needle yyy"));
        }
        _ => panic!("the match is there"),
    }
    assert!(matches!(create_snippet("abc", "z"), SnippetOutcome::Missing));
    let wide = format!("{}a", "é".repeat(61));
    assert!(matches!(create_snippet(&wide, "a"), SnippetOutcome::Shown(_)));
    let odd = format!("é{}a", "x".repeat(119));
    assert!(matches!(create_snippet(&odd, "a"), SnippetOutcome::Misaligned));
}

#[test]
fn shown_texts_are_cut() {
    assert_eq!(truncate("abc", 3), "abc");
    assert_eq!(truncate("abcd", 3), "abc…");
    assert!(is_cuttable("abcd", 3));
    assert!(!is_cuttable("aéb", 2));
    assert_eq!(fetched_message("a.rs", 7), "Retrieved a.rs (7 bytes)");
    assert_eq!(not_found_message("a.rs"), "a.rs not found in the index");
    let found = vec![
        SearchMatch { path: "a".to_string(), snippet: None },
        SearchMatch { path: "b".to_string(), snippet: None },
    ];
    assert_eq!(matches_message(&found), "Top 2 results:\n- a\n- b");
    assert_eq!(matches_message(&Vec::new()), "No results.");
}

#[test]
fn a_snapshot_takes_what_its_patterns_say() {
    let args = IngestArgs {
        root: None,
        included: None,
        excluded: Some(strings(&["secret/**"])),
        database_name: None,
        max_file_size_bytes: None,
        store_file_content: Some(false),
    };
    let options = snapshot_options(args, "db.sqlite");
    assert_eq!(options.database_name, "db.sqlite");
    assert!(!options.store_content);
    assert_eq!(size_limit(&options), 8_388_608);
    assert_eq!(include_patterns(Vec::new()), strings(&["**/*"]));
    let excluded_list = exclude_patterns(options.excluded, "db.sqlite");
    assert_eq!(excluded_list.len(), 10);
    assert_eq!(excluded_list[9], "db.sqlite-journal");
    let included = index_mcp::globs::compile_globs(&include_patterns(Vec::new())).unwrap();
    let excluded = index_mcp::globs::compile_globs(&excluded_list).unwrap();
    assert_eq!(classify_entry("a.rs", &included, &excluded), EntryStep::Take);
    assert_eq!(classify_entry("secret/a", &included, &excluded), EntryStep::Skip);
    assert_eq!(classify_entry("", &included, &excluded), EntryStep::Ignore);
    assert!(!keeps_entry(&Some("target/debug".to_string()), &excluded));
    assert!(keeps_entry(&Some("src".to_string()), &excluded));
    assert_eq!(relative_entry("/w", "/w/a//b").as_deref(), Some("a/b"));
    assert_eq!(snapshot_database(""), ".mcp-index.sqlite");
    assert!(IngestOptions::default().store_content);
}

#[test]
fn every_entry_is_counted() {
    let record = make_record(
        "a".to_string(),
        3,
        Some(FileTime { secs: 2, nanos: 500_000_000 }),
        b"abc".to_vec(),
        true,
    );
    assert_eq!(record.modified_ms, Some(2_500));
    assert_eq!(record.content.as_deref(), Some("abc"));
    assert!(record.hash.starts_with("ba7816bf"));
    let bytes = make_record("b".to_string(), 2, None, vec![0xff, 0xfe], true);
    assert_eq!(bytes.content, None);
    let sums = tally(vec![EntryOutcome::Stored(record), EntryOutcome::Skipped]);
    assert_eq!((sums.records.len(), sums.skipped, sums.total_bytes), (1, 1, 3));
    assert_eq!(oversize_message("a", 5, 5), None);
    assert_eq!(
        oversize_message("a", 6, 5).as_deref(),
        Some("Skipping a (size 6 exceeds max 5)")
    );
}

#[test]
fn a_snapshot_is_told_in_words() {
    let summary = IngestSummary {
        run: IngestRun {
            id: "id".to_string(),
            root: "/w".to_string(),
            started_at_ms: 1,
            finished_at_ms: 2,
            file_count: 4,
            skipped_count: 1,
            store_content: true,
        },
        database_path: "/w/db".to_string(),
        total_bytes: 9,
        duration_ms: 12,
    };
    assert_eq!(
        snapshot_message(&summary),
        "Indexed 4 files in 12 ms (1 skipped). Database stored at /w/db"
    );
    assert_eq!(
        snapshot_status(&Some(summary), "noon"),
        "Last ingest indexed 4 files with 1 skipped at noon"
    );
    assert_eq!(
        snapshot_status(&None, ""),
        "No ingest has been completed yet. Run ingest_codebase to create an index."
    );
}

#[test]
fn requests_are_routed() {
    assert_eq!(route("initialize", true), Route::Initialize);
    assert_eq!(route("call_tool", false), Route::CallTool);
    assert_eq!(route("nothing", true), Route::Unknown);
    assert_eq!(route("nothing", false), Route::Ignore);
    assert!(holds_request(" {"));
    assert!(!holds_request(" \t"));
    assert_eq!(find_name(&strings(&["a", "b"]), "b"), Some(1));
    assert_eq!(find_name(&strings(&["a"]), "c"), None);
    let prompts = default_prompts();
    assert_eq!(find_prompt(&prompts, "indexing_guidance").unwrap().role, "system");
    assert!(find_prompt(&prompts, "x").is_none());
}

#[test]
fn problems_of_requests_have_codes() {
    let text = || "x".to_string();
    for (problem, code, message) in [
        (RpcProblem::Unreadable(text()), PARSE_ERROR, "Failed to parse request: x"),
        (RpcProblem::UnknownMethod(text()), METHOD_NOT_FOUND, "Unknown method x"),
        (RpcProblem::BadCall(text()), INVALID_PARAMS, "Invalid call_tool parameters: x"),
        (RpcProblem::UnknownTool(text()), INVALID_PARAMS, "Unknown tool x"),
        (RpcProblem::BadResult(text()), INTERNAL_ERROR, "Failed to serialise tool result: x"),
        (
            RpcProblem::ToolFailed { name: "t".to_string(), error: text() },
            INTERNAL_ERROR,
            "Tool t failed: x",
        ),
        (RpcProblem::BadPromptRequest(text()), INVALID_PARAMS, "Invalid get_prompt parameters: x"),
        (RpcProblem::UnknownPrompt(text()), INVALID_PARAMS, "Prompt x not found"),
    ] {
        assert_eq!(problem.code(), code);
        assert_eq!(problem.message(), message);
    }
}

#[test]
fn requested_paths_stay_below_the_root() {
    assert_eq!(sanitize_requested_path(" ././a/./b ").as_deref(), Some("a/b"));
    assert_eq!(sanitize_requested_path("\\a\\b").as_deref(), Some("a/b"));
    assert_eq!(sanitize_requested_path("a/../b"), None);
    assert_eq!(sanitize_requested_path("a//b"), None);
    assert_eq!(sanitize_requested_path("."), None);
    assert_eq!(collect_requested(&strings(&["a", "./a", "b", ""])), strings(&["a", "b"]));
    assert_eq!(to_relative_posix("/w", "/w/a/b").as_deref(), Some("a/b"));
    assert_eq!(to_relative_posix("/w", "/w"), None);
}

#[test]
fn a_walk_becomes_jobs() {
    let entry = |path: &str, depth: usize, is_file: bool| Walked::Entry {
        path: path.to_string(),
        depth,
        is_file,
    };
    let excluded = build_globset(&strings(&["*.log", " "])).unwrap();
    assert!(build_globset(&strings(&[" "])).unwrap().is_none());
    let message = build_globset(&strings(&["*.rs", " a[ ", "b["])).unwrap_err();
    assert!(message.starts_with("Invalid glob pattern ' a[ ': "));
    let walk = vec![
        entry("/w", 0, false),
        entry("/w/src", 1, false),
        entry("/w/src/a.rs", 2, true),
        entry("/w/x.log", 1, true),
        entry("/w/src/a.rs", 2, true),
        Walked::Failed { path: None, message: "denied".to_string() },
    ];
    let (jobs, skipped) = collect_scan_jobs("/w", &None, &excluded, &walk);
    assert_eq!(jobs, strings(&["src/a.rs"]));
    assert_eq!(skipped.len(), 1);
    assert_eq!((skipped[0].path.as_str(), skipped[0].reason.as_str()), (".", "read-error"));
}

#[test]
fn scanned_files_are_sorted() {
    let make = |path: &str| scan_file(path.to_string(), 1, None, b"x".to_vec(), true);
    let result = scan_result(
        Vec::new(),
        vec![
            ScanOutcome::File(make("b")),
            ScanOutcome::Skipped(refuse_large("c", 9, Some(8)).unwrap()),
            ScanOutcome::File(make("a")),
        ],
    );
    let paths: Vec<&str> = result.files.iter().map(|file| file.path.as_str()).collect();
    assert_eq!(paths, vec!["a", "b"]);
    assert_eq!(result.skipped[0].reason, "file-too-large");
    assert!(refuse_large("c", 8, Some(8)).is_none());
    let binary = scan_file("z".to_string(), 2, Some(5), vec![1, 0], true);
    assert!(binary.is_binary && binary.content.is_none());
    assert_eq!(binary.modified, 5);
    assert_eq!(
        not_a_directory("scan_repo", "/w"),
        "scan_repo root must be a directory: /w"
    );
}

#[test]
fn sections_run_once_and_in_order() {
    assert_eq!(determine_sections(&Vec::new(), &Vec::new()).len(), Section::all().len());
    let chosen = determine_sections(
        &vec![Section::IndexStatus, Section::Ingest, Section::IndexStatus],
        &Vec::new(),
    );
    assert!(chosen.len() <= 3 && chosen.contains(&Section::Ingest));
    let failed = SectionExecution::Failed { error: "x".to_string() };
    assert!(failed.is_failure());
    assert!(!goes_on(&failed, true));
    assert!(goes_on(&failed, false));
    assert!(!log_lines("header", 5, &failed).is_empty());
    let (absolute, relative) = locate_candidate("/w", "a/b.md");
    assert_eq!((absolute.as_str(), relative.as_str()), ("/w/a/b.md", "a/b.md"));
}

#[test]
fn instructions_name_the_workspace() {
    let template = format!("Root: {ROOT_PLACEHOLDER}.");
    assert_eq!(render_instruction(&template, "/w"), "Root: /w.");
    assert_eq!(render_instruction("plain", "/w"), "plain");
}

#[test]
fn problems_of_tools_are_told() {
    let glob = convert_ingest_error(IngestError::GlobPattern {
        pattern: "a[".to_string(),
        source: "open".to_string(),
    });
    assert_eq!(glob.kind, ErrorKind::InvalidParams);
    assert_eq!(glob.message, "Invalid glob pattern 'a[': open");
    let models = convert_semantic_search_error(SemanticSearchError::MultipleModels {
        available: "a, b".to_string(),
    });
    assert_eq!(
        models.message,
        "Multiple embedding models found (a, b). Specify the desired model."
    );
    let missing = convert_repository_timeline_error(
        index_mcp::git_timeline::RepositoryTimelineError::EntryNotFound {
            commit_sha: "abc".to_string(),
            path: "/db".to_string(),
        },
    );
    assert_eq!(missing.message, "Commit abc not found in timeline cache at /db");
    assert_eq!(
        ContextBundleError::Io { path: "/a".to_string(), source: "x".to_string() }.message(),
        "I/O error for /a: x"
    );
}
