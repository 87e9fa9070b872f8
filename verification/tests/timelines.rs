use index_mcp::git_entries::parse_git_log;
use index_mcp::git_log::{aggregate_directory_churn, parse_stat_value, sum_changes, to_top_files};
use index_mcp::git_remote::{
    build_pull_request_url, normalize_remote_url, parse_pull_request_number,
};
use index_mcp::git_timeline::{
    answer_lookup, build_diff_preview, git_log_args, normalize_since_input, timeline_options,
    timeline_rows, timeline_totals, RepositoryTimelineError, RepositoryTimelineFileChange,
    RepositoryTimelineParams, GIT_LOG_FIELD_SEPARATOR, GIT_LOG_RECORD_SEPARATOR,
};

fn change(path: &str, insertions: i64, deletions: i64) -> RepositoryTimelineFileChange {
    RepositoryTimelineFileChange {
        path: path.to_string(),
        insertions: Some(insertions),
        deletions: Some(deletions),
        net: Some(insertions - deletions),
    }
}

fn params() -> RepositoryTimelineParams {
    RepositoryTimelineParams {
        root: None,
        database_name: None,
        branch: None,
        limit: None,
        since: Some(" 2w ".to_string()),
        include_merges: Some(false),
        include_file_stats: Some(true),
        include_diffs: None,
        paths: Some(vec![" src ".to_string(), String::new()]),
        diff_pattern: None,
    }
}

#[test]
fn a_span_of_time_is_written_out() {
    assert_eq!(normalize_since_input("2w"), "2.weeks");
    assert_eq!(normalize_since_input(" 1 d "), "1.days");
    assert_eq!(normalize_since_input("2024-01-01"), "2024-01-01");
}

#[test]
fn git_is_asked_as_the_request_says() {
    let options = timeline_options(&params());
    assert_eq!(options.branch, "HEAD");
    assert!(!options.include_merges);
    let args = git_log_args(&options);
    assert!(args.iter().any(|arg| arg == "--no-merges"));
    assert!(args.iter().any(|arg| arg.contains("2.weeks")));
    assert_eq!(args.last().map(|arg| arg.as_str()), Some("src"));
}

#[test]
fn remotes_are_written_as_pages() {
    assert_eq!(
        normalize_remote_url(Some("git@github.com:me/repo.git".to_string())).as_deref(),
        Some("https://github.com/me/repo")
    );
    assert_eq!(
        normalize_remote_url(Some("https://user:pw@github.com/me/repo.git".to_string())).as_deref(),
        Some("https://github.com/me/repo")
    );
    assert_eq!(
        normalize_remote_url(Some("https://me@host.dev:8443/x.git?a=b#c".to_string())).as_deref(),
        Some("https://host.dev:8443/x")
    );
    assert_eq!(normalize_remote_url(None), None);
}

#[test]
fn pull_requests_are_found_in_subjects() {
    assert_eq!(parse_pull_request_number("Fix it (#42)"), Some(42));
    assert_eq!(parse_pull_request_number("Merge pull request #7 from x"), Some(7));
    assert_eq!(parse_pull_request_number("Fix it"), None);
    assert_eq!(
        build_pull_request_url(Some("https://github.com/me/repo"), Some(42)).as_deref(),
        Some("https://github.com/me/repo/pull/42")
    );
    assert_eq!(build_pull_request_url(None, Some(42)), None);
}

#[test]
fn changes_are_added_up() {
    assert_eq!(parse_stat_value("12"), Some(12));
    assert_eq!(parse_stat_value("-"), None);
    let changes = vec![change("src/a.rs", 1, 2), change("src/b.rs", 30, 4), change("c.rs", 5, 5)];
    assert_eq!(sum_changes(&changes), (36, 11));
    let top = to_top_files(&changes, 2);
    assert_eq!(top.len(), 2);
    assert_eq!(top[0].path, "src/b.rs");
    let churn = aggregate_directory_churn(&changes, 5);
    assert_eq!(churn[0].path, "src");
    assert_eq!(churn[0].insertions, 31);
}

#[test]
fn a_log_without_commits_has_no_entries() {
    assert!(parse_git_log("", true, false, None).is_empty());
    assert_eq!(timeline_totals(&Vec::new()), (0, 0, 0));
}

#[test]
fn a_stored_commit_is_read_back() {
    let fields =
        ["abc", "Ann", "ann@x", "2024", "Ben", "ben@x", "2025", "Fix it (#42)", "p1 p2"];
    let header: Vec<String> = fields.iter().map(|field| field.to_string()).collect();
    let diff = "diff --git a/x b/x\n+new";
    let log = format!(
        "{}{}\n3\t1\tsrc/x.rs\n{}\n",
        GIT_LOG_RECORD_SEPARATOR,
        header.join(&GIT_LOG_FIELD_SEPARATOR.to_string()),
        diff
    );
    let entries = parse_git_log(&log, true, true, None);
    assert_eq!(entries.len(), 1);
    assert_eq!((entries[0].insertions, entries[0].deletions), (3, 1));
    assert!(entries[0].is_merge);

    let mut rows = timeline_rows(entries, "HEAD", 7);
    assert_eq!(rows[0].commit_sha, "abc");
    assert_eq!(rows[0].branch, "HEAD");
    assert_eq!(rows[0].entry.diff, None);
    let found = answer_lookup("db".to_string(), "abc".to_string(), rows.pop()).unwrap();
    assert_eq!(found.database_path, "db");
    assert_eq!(found.diff.as_deref(), Some(diff));
    assert_eq!(found.entry.subject, "Fix it (#42)");
    assert_eq!(found.entry.captured_at, Some(7));
    assert_eq!(found.entry.diff.as_deref(), Some("stored://repository_timeline/abc"));
    assert_eq!(found.entry.diff_pointer.as_deref(), Some("abc"));
    assert_eq!(found.entry.diff_preview.as_deref(), Some(diff));

    let missing = answer_lookup("db".to_string(), "other".to_string(), None).unwrap_err();
    assert_eq!(missing.message(), "timeline entry 'other' not found in database 'db'");
}

#[test]
fn previews_of_diffs_are_bounded() {
    assert_eq!(build_diff_preview("short"), "short");
    let long = "line\n".repeat(10_000);
    assert!(build_diff_preview(&long).len() < long.len());
}

#[test]
fn problems_are_told_in_words() {
    let missing = RepositoryTimelineError::EntryNotFound {
        commit_sha: "abc".to_string(),
        path: "/db".to_string(),
    };
    assert_eq!(missing.message(), "timeline entry 'abc' not found in database '/db'");
}
