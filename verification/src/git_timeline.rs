//! The timeline of a repository: its types, the request to `git log`, and what is reported.

use vstd::prelude::*;
use crate::bundle_graph::text_of;
use crate::decimal::{decimal, push_decimal};
use crate::pieces::{filled, joined, join, keep_filled, lines_of, push_text, str_lines, texts};
use crate::regexes::{capture_group, regex_group};
use crate::text::{chars_of, lowercase, same_text, string_of, to_lowercase, trim_str, trimmed};
use vstd::slice::slice_subrange;

verus! {

/// What parts the fields of a commit in the log.
pub const GIT_LOG_FIELD_SEPARATOR: char = '\u{1f}';

/// What parts the commits of the log.
pub const GIT_LOG_RECORD_SEPARATOR: char = '\u{1e}';

/// The most lines of a diff preview.
pub const DIFF_PREVIEW_MAX_LINES: usize = 200;

/// The most characters of a diff preview, before the mark that it was cut.
pub const DIFF_PREVIEW_MAX_CHARS: usize = 4_000;

/// How many commits are listed where the request does not say.
pub const DEFAULT_TIMELINE_LIMIT: u32 = 20;

/// A request for the timeline of a repository.
#[derive(Debug)]
pub struct RepositoryTimelineParams {
    pub root: Option<String>,
    pub database_name: Option<String>,
    pub branch: Option<String>,
    pub limit: Option<u32>,
    pub since: Option<String>,
    pub include_merges: Option<bool>,
    pub include_file_stats: Option<bool>,
    pub include_diffs: Option<bool>,
    pub paths: Option<Vec<String>>,
    pub diff_pattern: Option<String>,
}

/// How a commit changed a file.
#[derive(Debug, Clone)]
pub struct RepositoryTimelineFileChange {
    pub path: String,
    pub insertions: Option<i64>,
    pub deletions: Option<i64>,
    pub net: Option<i64>,
}

/// One of the files that a commit changed most.
#[derive(Debug, Clone)]
pub struct RepositoryTimelineTopFile {
    pub path: String,
    pub insertions: i64,
    pub deletions: i64,
    pub net: i64,
}

/// How a commit changed a directory.
#[derive(Debug, Clone)]
pub struct RepositoryTimelineDirectoryChurn {
    pub path: String,
    pub insertions: i64,
    pub deletions: i64,
    pub net: i64,
    pub files_changed: usize,
}

/// How much a commit changed.
#[derive(Debug, Clone)]
pub struct RepositoryTimelineDiffSummary {
    pub files_changed: usize,
    pub insertions: i64,
    pub deletions: i64,
    pub net: i64,
}

/// A commit.
#[derive(Debug, Clone)]
pub struct RepositoryTimelineEntry {
    pub sha: String,
    pub subject: String,
    pub summary: String,
    pub author: TimelineIdentity,
    pub author_date: String,
    pub committer: TimelineIdentity,
    pub committer_date: String,
    pub parents: Vec<String>,
    pub is_merge: bool,
    pub pull_request_number: Option<i64>,
    pub files_changed: usize,
    pub insertions: i64,
    pub deletions: i64,
    pub file_changes: Vec<RepositoryTimelineFileChange>,
    pub diff: Option<String>,
    pub diff_preview: Option<String>,
    pub diff_pointer: Option<String>,
    pub top_files: Vec<RepositoryTimelineTopFile>,
    pub directory_churn: Vec<RepositoryTimelineDirectoryChurn>,
    pub diff_summary: RepositoryTimelineDiffSummary,
    pub highlights: Vec<String>,
    pub pull_request_url: Option<String>,
    pub captured_at: Option<i64>,
}

/// Who wrote or committed a commit.
#[derive(Debug, Clone)]
pub struct TimelineIdentity {
    pub name: String,
    pub email: String,
}

/// The timeline of a repository.
#[derive(Debug, Clone)]
pub struct RepositoryTimelineResponse {
    pub repository_root: String,
    pub branch: String,
    pub limit: u32,
    pub since: Option<String>,
    pub include_merges: bool,
    pub include_file_stats: bool,
    pub include_diffs: bool,
    pub paths: Option<Vec<String>>,
    pub diff_pattern: Option<String>,
    pub total_commits: usize,
    pub merge_commits: usize,
    pub total_insertions: i64,
    pub total_deletions: i64,
    pub entries: Vec<RepositoryTimelineEntry>,
    pub remote_url: Option<String>,
    pub database_path: Option<String>,
}

/// A request for one commit that was stored.
#[derive(Debug)]
pub struct RepositoryTimelineEntryLookupParams {
    pub root: Option<String>,
    pub database_name: Option<String>,
    pub commit_sha: String,
}

/// A commit that was stored.
#[derive(Debug, Clone)]
pub struct RepositoryTimelineEntryLookupResponse {
    pub database_path: String,
    pub entry: RepositoryTimelineEntry,
    pub diff: Option<String>,
}

/// Why there is no timeline. What went wrong outside is given in words.
#[derive(Debug)]
pub enum RepositoryTimelineError {
    InvalidRoot { path: String, source: String },
    NotAGitRepository { path: String, message: String },
    Git(String),
    Join(String),
    Database { path: String, source: String },
    Serialization(String),
    EntryNotFound { commit_sha: String, path: String },
}

impl RepositoryTimelineError {
    /// The error in words.
    pub open spec fn text(&self) -> Seq<char> {
        match *self {
            RepositoryTimelineError::InvalidRoot { path, source } =>
                "failed to resolve workspace root '"@ + path@ + "': "@ + source@,
            RepositoryTimelineError::NotAGitRepository { path, message } =>
                "git repository not found at '"@ + path@ + "': "@ + message@,
            RepositoryTimelineError::Git(message) => "git command failed: "@ + message@,
            RepositoryTimelineError::Join(message) => "blocking task panicked: "@ + message@,
            RepositoryTimelineError::Database { path, source } =>
                "failed to persist timeline entries to '"@ + path@ + "': "@ + source@,
            RepositoryTimelineError::Serialization(message) =>
                "failed to serialize repository timeline entry: "@ + message@,
            RepositoryTimelineError::EntryNotFound { commit_sha, path } => "timeline entry '"@
                + commit_sha@ + "' not found in database '"@ + path@ + "'"@,
        }
    }

    /// The error in words.
    pub fn message(&self) -> (r: String)
        ensures
            r@ == self.text(),
    {
        match self {
            RepositoryTimelineError::InvalidRoot { path, source } => {
                let mut out = "failed to resolve workspace root '".to_owned();
                out.append(path.as_str());
                out.append("': ");
                out.append(source.as_str());
                out
            },
            RepositoryTimelineError::NotAGitRepository { path, message } => {
                let mut out = "git repository not found at '".to_owned();
                out.append(path.as_str());
                out.append("': ");
                out.append(message.as_str());
                out
            },
            RepositoryTimelineError::Git(message) => {
                let mut out = "git command failed: ".to_owned();
                out.append(message.as_str());
                out
            },
            RepositoryTimelineError::Join(message) => {
                let mut out = "blocking task panicked: ".to_owned();
                out.append(message.as_str());
                out
            },
            RepositoryTimelineError::Database { path, source } => {
                let mut out = "failed to persist timeline entries to '".to_owned();
                out.append(path.as_str());
                out.append("': ");
                out.append(source.as_str());
                out
            },
            RepositoryTimelineError::Serialization(message) => {
                let mut out = "failed to serialize repository timeline entry: ".to_owned();
                out.append(message.as_str());
                out
            },
            RepositoryTimelineError::EntryNotFound { commit_sha, path } => {
                let mut out = "timeline entry '".to_owned();
                out.append(commit_sha.as_str());
                out.append("' not found in database '");
                out.append(path.as_str());
                out.append("'");
                out
            },
        }
    }
}

// ---------------------------------------------------------------------------
// The request to git
// ---------------------------------------------------------------------------

/// A number and a unit of time.
pub const RELATIVE_SINCE: &'static str = r"^(\d+)\s*(d|w|m|y)$";

/// How git writes a number of days, weeks, months or years; another text as it is.
pub open spec fn since_words(
    text: Seq<char>,
    amount: Option<Seq<char>>,
    unit: Option<Seq<char>>,
) -> Seq<char> {
    match (amount, unit) {
        (Some(n), Some(u)) => {
            let unit = lowercase(u);
            if unit == "d"@ {
                n + ".days"@
            } else if unit == "w"@ {
                n + ".weeks"@
            } else if unit == "m"@ {
                n + ".months"@
            } else if unit == "y"@ {
                n + ".years"@
            } else {
                text
            }
        },
        _ => text,
    }
}

/// How git writes a number of days, weeks, months or years; another text as it is.
pub fn write_since(text: String, amount: Option<String>, unit: Option<String>) -> (r: String)
    ensures
        r@ == since_words(text@, text_of(amount), text_of(unit)),
{
    match (amount, unit) {
        (Some(n), Some(u)) => {
            let lower = to_lowercase(u.as_str());
            let unit = lower.as_str();
            let mut out = n;
            if same_text(unit, "d") {
                out.append(".days");
            } else if same_text(unit, "w") {
                out.append(".weeks");
            } else if same_text(unit, "m") {
                out.append(".months");
            } else if same_text(unit, "y") {
                out.append(".years");
            } else {
                return text;
            }
            out
        },
        _ => text,
    }
}

/// Since when commits are listed, as git understands it.
pub open spec fn since_of(value: Seq<char>) -> Seq<char> {
    let t = trimmed(value);
    since_words(t, regex_group(RELATIVE_SINCE@, t, 1), regex_group(RELATIVE_SINCE@, t, 2))
}

/// Since when commits are listed, as git understands it.
pub fn normalize_since_input(value: &str) -> (r: String)
    ensures
        r@ == since_of(value@),
{
    let t = trim_str(value);
    let amount = capture_group(RELATIVE_SINCE, t.as_str(), 1);
    let unit = capture_group(RELATIVE_SINCE, t.as_str(), 2);
    write_since(t, amount, unit)
}

/// The format of a commit in the log.
pub const LOG_FORMAT: &'static str =
    "--format=\u{1e}%H\u{1f}%an\u{1f}%ae\u{1f}%aI\u{1f}%cn\u{1f}%ce\u{1f}%cI\u{1f}%s\u{1f}%P";

/// The texts without white space around them, unless nothing is left.
pub open spec fn trimmed_all(list: Seq<Seq<char>>) -> Seq<Seq<char>> {
    filled(Seq::new(list.len(), |i: int| trimmed(list[i])))
}

/// The texts without white space around them, unless nothing is left.
pub fn trim_all(list: &Vec<String>) -> (r: Vec<String>)
    ensures
        texts(r@) == trimmed_all(texts(list@)),
{
    let ghost goal = Seq::new(list@.len(), |i: int| trimmed(texts(list@)[i]));
    let mut out: Vec<String> = Vec::new();
    let mut i: usize = 0;
    assert(texts(out@) =~= goal.take(0));
    while i < list.len()
        invariant
            i <= list@.len(),
            goal == Seq::new(list@.len(), |i: int| trimmed(texts(list@)[i])),
            texts(out@) == goal.take(i as int),
        decreases list.len() - i,
    {
        assert(goal.take(i + 1) =~= goal.take(i as int).push(trimmed(list@[i as int]@)));
        push_text(&mut out, trim_str(list[i].as_str()));
        i += 1;
    }
    assert(goal.take(i as int) =~= goal);
    keep_filled(&out)
}

/// The text without white space around it, unless nothing is left.
pub open spec fn trimmed_option(value: Option<Seq<char>>) -> Option<Seq<char>> {
    match value {
        Some(v) => if trimmed(v).len() > 0 {
            Some(trimmed(v))
        } else {
            None
        },
        None => None,
    }
}

/// The text without white space around it, unless nothing is left.
pub fn trim_option(value: &Option<String>) -> (r: Option<String>)
    ensures
        text_of(r) == trimmed_option(text_of(*value)),
{
    match value {
        Some(v) => {
            let t = trim_str(v.as_str());
            if t.as_str().is_empty() {
                None
            } else {
                Some(t)
            }
        },
        None => None,
    }
}

/// What a request asks of the log.
#[derive(Debug)]
pub struct GitLogOptions {
    pub branch: String,
    pub limit: u32,
    pub since: Option<String>,
    pub include_merges: bool,
    pub include_file_stats: bool,
    pub include_diffs: bool,
    pub paths: Option<Vec<String>>,
    pub diff_pattern: Option<String>,
}

/// One argument where the condition holds.
pub open spec fn argument_if(condition: bool, argument: Seq<char>) -> Seq<Seq<char>> {
    if condition {
        seq![argument]
    } else {
        Seq::empty()
    }
}

/// The paths that the log is restricted to.
pub open spec fn path_arguments(paths: Option<Vec<String>>) -> Seq<Seq<char>> {
    match paths {
        Some(list) => if trimmed_all(texts(list@)).len() > 0 {
            seq!["--"@] + trimmed_all(texts(list@))
        } else {
            Seq::empty()
        },
        None => Seq::empty(),
    }
}

/// The pattern that changed lines must match.
pub open spec fn pattern_arguments(pattern: Option<Seq<char>>) -> Seq<Seq<char>> {
    match trimmed_option(pattern) {
        Some(p) => seq!["-G"@, p],
        None => Seq::empty(),
    }
}

/// Since when commits are listed.
pub open spec fn since_arguments(since: Option<Seq<char>>) -> Seq<Seq<char>> {
    match since {
        Some(s) => seq!["--since="@ + since_of(s)],
        None => Seq::empty(),
    }
}

/// The arguments of `git` for these options.
pub open spec fn log_arguments(options: GitLogOptions) -> Seq<Seq<char>> {
    let count = if options.limit == 0 {
        1nat
    } else {
        options.limit as nat
    };
    seq!["log"@, "--no-color"@, "--date-order"@, "--max-count="@ + decimal(count)]
        + argument_if(options.include_diffs, "--patch"@) + seq![LOG_FORMAT@] + argument_if(
        options.include_file_stats,
        "--numstat"@,
    ) + argument_if(!options.include_merges, "--no-merges"@) + pattern_arguments(
        text_of(options.diff_pattern),
    ) + since_arguments(text_of(options.since)) + seq![options.branch@] + path_arguments(
        options.paths,
    )
}

/// What a list of arguments asks `git log` for.
pub struct LogSelection {
    pub not_before: Option<Seq<char>>,
    pub not_after: Option<Seq<char>>,
    pub at_most: Option<Seq<char>>,
    pub changed_lines: Option<Seq<char>>,
    pub revision: Option<Seq<char>>,
    pub paths: Seq<Seq<char>>,
    pub merges: bool,
    pub patches: bool,
    pub counts: bool,
}

/// What `git log` is asked for with no argument.
pub open spec fn whole_log() -> LogSelection {
    LogSelection {
        not_before: None,
        not_after: None,
        at_most: None,
        changed_lines: None,
        revision: None,
        paths: Seq::empty(),
        merges: true,
        patches: false,
        counts: false,
    }
}

/// The value of an option that is written with its value behind it.
pub open spec fn option_value(argument: Seq<char>, name: Seq<char>) -> Option<Seq<char>> {
    if name.is_prefix_of(argument) {
        Some(argument.skip(name.len() as int))
    } else {
        None
    }
}

/// How `git log` reads one argument: commits before the time behind `--since=` or `--after=`
/// are left out, and so are those after the time behind `--until=` or `--before=`.
pub open spec fn read_argument(a: Seq<char>, asked: LogSelection) -> LogSelection {
    if let Some(time) = option_value(a, "--since="@) {
        LogSelection { not_before: Some(time), ..asked }
    } else if let Some(time) = option_value(a, "--after="@) {
        LogSelection { not_before: Some(time), ..asked }
    } else if let Some(time) = option_value(a, "--until="@) {
        LogSelection { not_after: Some(time), ..asked }
    } else if let Some(time) = option_value(a, "--before="@) {
        LogSelection { not_after: Some(time), ..asked }
    } else if let Some(n) = option_value(a, "--max-count="@) {
        LogSelection { at_most: Some(n), ..asked }
    } else if a == "--no-merges"@ {
        LogSelection { merges: false, ..asked }
    } else if a == "--patch"@ {
        LogSelection { patches: true, ..asked }
    } else if a == "--numstat"@ {
        LogSelection { counts: true, ..asked }
    } else if a.len() > 0 && a[0] == '-' {
        asked
    } else {
        LogSelection { revision: Some(a), ..asked }
    }
}

/// How `git log` reads its arguments from the left: behind `--` there are only paths, and
/// behind `-G` stands the pattern of changed lines.
pub open spec fn read_arguments(args: Seq<Seq<char>>, asked: LogSelection) -> LogSelection
    decreases args.len(),
{
    if args.len() == 0 {
        asked
    } else if args[0] == "--"@ {
        LogSelection { paths: args.drop_first(), ..asked }
    } else if args[0] == "-G"@ && args.len() > 1 {
        read_arguments(args.skip(2), LogSelection { changed_lines: Some(args[1]), ..asked })
    } else {
        read_arguments(args.drop_first(), read_argument(args[0], asked))
    }
}

proof fn lemma_other_option(a: Seq<char>, name: Seq<char>, k: int)
    requires
        0 <= k < a.len(),
        k < name.len(),
        a[k] != name[k],
    ensures
        !name.is_prefix_of(a),
        a != name,
{
    if name.is_prefix_of(a) {
        assert(name[k] == a.subrange(0, name.len() as int)[k]);
    }
}

proof fn lemma_no_time_option(a: Seq<char>)
    requires
        a.len() > 2,
        a[2] != 's' && a[2] != 'a' && a[2] != 'u' && a[2] != 'b',
    ensures
        option_value(a, "--since="@) is None,
        option_value(a, "--after="@) is None,
        option_value(a, "--until="@) is None,
        option_value(a, "--before="@) is None,
        a != "--"@,
        a != "-G"@,
{
    reveal_strlit("--since=");
    reveal_strlit("--after=");
    reveal_strlit("--until=");
    reveal_strlit("--before=");
    reveal_strlit("--");
    reveal_strlit("-G");
    lemma_other_option(a, "--since="@, 2);
    lemma_other_option(a, "--after="@, 2);
    lemma_other_option(a, "--until="@, 2);
    lemma_other_option(a, "--before="@, 2);
}

proof fn lemma_read_one(a: Seq<char>, rest: Seq<Seq<char>>, asked: LogSelection)
    requires
        a != "--"@,
        a != "-G"@,
    ensures
        read_arguments(seq![a] + rest, asked) == read_arguments(rest, read_argument(a, asked)),
{
    assert((seq![a] + rest).drop_first() =~= rest);
}

proof fn lemma_read_plain(asked: LogSelection)
    ensures
        read_argument("--no-color"@, asked) == asked,
        read_argument("--date-order"@, asked) == asked,
        read_argument(LOG_FORMAT@, asked) == asked,
        "--no-color"@ != "--"@ && "--no-color"@ != "-G"@,
        "--date-order"@ != "--"@ && "--date-order"@ != "-G"@,
        LOG_FORMAT@ != "--"@ && LOG_FORMAT@ != "-G"@,
{
    reveal_strlit("--no-color");
    reveal_strlit("--date-order");
    reveal_strlit(
        "--format=\u{1e}%H\u{1f}%an\u{1f}%ae\u{1f}%aI\u{1f}%cn\u{1f}%ce\u{1f}%cI\u{1f}%s\u{1f}%P",
    );
    reveal_strlit("--max-count=");
    reveal_strlit("--no-merges");
    reveal_strlit("--patch");
    reveal_strlit("--numstat");
    lemma_no_time_option("--no-color"@);
    lemma_other_option("--no-color"@, "--max-count="@, 2);
    lemma_other_option("--no-color"@, "--no-merges"@, 5);
    lemma_other_option("--no-color"@, "--patch"@, 2);
    lemma_other_option("--no-color"@, "--numstat"@, 3);
    lemma_no_time_option("--date-order"@);
    lemma_other_option("--date-order"@, "--max-count="@, 2);
    lemma_other_option("--date-order"@, "--no-merges"@, 2);
    lemma_other_option("--date-order"@, "--patch"@, 2);
    lemma_other_option("--date-order"@, "--numstat"@, 2);
    lemma_no_time_option(LOG_FORMAT@);
    lemma_other_option(LOG_FORMAT@, "--max-count="@, 2);
    lemma_other_option(LOG_FORMAT@, "--no-merges"@, 2);
    lemma_other_option(LOG_FORMAT@, "--patch"@, 2);
    lemma_other_option(LOG_FORMAT@, "--numstat"@, 2);
}

proof fn lemma_read_flags(asked: LogSelection)
    ensures
        read_argument("--no-merges"@, asked) == (LogSelection { merges: false, ..asked }),
        read_argument("--patch"@, asked) == (LogSelection { patches: true, ..asked }),
        read_argument("--numstat"@, asked) == (LogSelection { counts: true, ..asked }),
        "--no-merges"@ != "--"@ && "--no-merges"@ != "-G"@,
        "--patch"@ != "--"@ && "--patch"@ != "-G"@,
        "--numstat"@ != "--"@ && "--numstat"@ != "-G"@,
{
    reveal_strlit("--max-count=");
    reveal_strlit("--no-merges");
    reveal_strlit("--patch");
    reveal_strlit("--numstat");
    lemma_no_time_option("--no-merges"@);
    lemma_other_option("--no-merges"@, "--max-count="@, 2);
    lemma_no_time_option("--patch"@);
    lemma_other_option("--patch"@, "--max-count="@, 2);
    lemma_other_option("--patch"@, "--no-merges"@, 2);
    lemma_no_time_option("--numstat"@);
    lemma_other_option("--numstat"@, "--max-count="@, 2);
    lemma_other_option("--numstat"@, "--no-merges"@, 3);
    lemma_other_option("--numstat"@, "--patch"@, 2);
}

proof fn lemma_read_count(n: Seq<char>, asked: LogSelection)
    ensures
        read_argument("--max-count="@ + n, asked) == (LogSelection { at_most: Some(n), ..asked }),
        "--max-count="@ + n != "--"@,
        "--max-count="@ + n != "-G"@,
{
    reveal_strlit("--max-count=");
    let a = "--max-count="@ + n;
    lemma_no_time_option(a);
    assert(a.subrange(0, "--max-count="@.len() as int) =~= "--max-count="@);
    assert(a.skip("--max-count="@.len() as int) =~= n);
}

proof fn lemma_read_since(time: Seq<char>, asked: LogSelection)
    ensures
        read_argument("--since="@ + time, asked) == (LogSelection {
            not_before: Some(time),
            ..asked
        }),
        "--since="@ + time != "--"@,
        "--since="@ + time != "-G"@,
{
    reveal_strlit("--since=");
    reveal_strlit("--");
    reveal_strlit("-G");
    let a = "--since="@ + time;
    assert(a.subrange(0, "--since="@.len() as int) =~= "--since="@);
    assert(a.skip("--since="@.len() as int) =~= time);
}

proof fn lemma_read_revision(a: Seq<char>, asked: LogSelection)
    requires
        a.len() == 0 || a[0] != '-',
    ensures
        read_argument(a, asked) == (LogSelection { revision: Some(a), ..asked }),
        a != "--"@,
        a != "-G"@,
{
    reveal_strlit("--since=");
    reveal_strlit("--after=");
    reveal_strlit("--until=");
    reveal_strlit("--before=");
    reveal_strlit("--max-count=");
    reveal_strlit("--no-merges");
    reveal_strlit("--patch");
    reveal_strlit("--numstat");
    reveal_strlit("--");
    reveal_strlit("-G");
    if a.len() > 0 {
        lemma_other_option(a, "--since="@, 0);
        lemma_other_option(a, "--after="@, 0);
        lemma_other_option(a, "--until="@, 0);
        lemma_other_option(a, "--before="@, 0);
        lemma_other_option(a, "--max-count="@, 0);
        lemma_other_option(a, "--no-merges"@, 0);
        lemma_other_option(a, "--patch"@, 0);
        lemma_other_option(a, "--numstat"@, 0);
    }
}

proof fn lemma_read_paths(paths: Option<Vec<String>>, asked: LogSelection)
    requires
        asked.paths == Seq::<Seq<char>>::empty(),
    ensures
        read_arguments(path_arguments(paths), asked) == (LogSelection {
            paths: match paths {
                Some(list) => trimmed_all(texts(list@)),
                None => Seq::empty(),
            },
            ..asked
        }),
{
    if let Some(list) = paths {
        let all = trimmed_all(texts(list@));
        if all.len() > 0 {
            assert((seq!["--"@] + all).drop_first() =~= all);
        } else {
            assert(all =~= Seq::<Seq<char>>::empty());
        }
    }
}

proof fn lemma_read_tail(options: GitLogOptions, asked: LogSelection)
    requires
        options.branch@.len() == 0 || options.branch@[0] != '-',
        asked.paths == Seq::<Seq<char>>::empty(),
        asked.changed_lines is None,
        asked.not_before is None,
    ensures
        read_arguments(
            pattern_arguments(text_of(options.diff_pattern)) + since_arguments(
                text_of(options.since),
            ) + seq![options.branch@] + path_arguments(options.paths),
            asked,
        ) == (LogSelection {
            changed_lines: match options.diff_pattern {
                Some(p) => if trimmed(p@).len() > 0 {
                    Some(trimmed(p@))
                } else {
                    None
                },
                None => None,
            },
            not_before: match options.since {
                Some(s) => Some(since_of(s@)),
                None => None,
            },
            revision: Some(options.branch@),
            paths: match options.paths {
                Some(list) => trimmed_all(texts(list@)),
                None => Seq::empty(),
            },
            ..asked
        }),
{
    let pattern = pattern_arguments(text_of(options.diff_pattern));
    let since = since_arguments(text_of(options.since));
    let paths = path_arguments(options.paths);
    let from_branch = seq![options.branch@] + paths;
    let from_since = since + from_branch;
    let all = pattern + since + seq![options.branch@] + paths;
    assert(all =~= pattern + from_since);
    let first = match trimmed_option(text_of(options.diff_pattern)) {
        Some(p) => LogSelection { changed_lines: Some(p), ..asked },
        None => asked,
    };
    if trimmed_option(text_of(options.diff_pattern)) is Some {
        reveal_strlit("--");
        reveal_strlit("-G");
        assert("--"@[1] != "-G"@[1]);
        assert(all.skip(2) =~= from_since);
        assert(all[0] == "-G"@ && all[1] == trimmed_option(text_of(options.diff_pattern))->0);
    } else {
        assert(all =~= from_since);
    }
    let second = match options.since {
        Some(s) => LogSelection { not_before: Some(since_of(s@)), ..first },
        None => first,
    };
    if let Some(s) = options.since {
        lemma_read_since(since_of(s@), first);
        lemma_read_one("--since="@ + since_of(s@), from_branch, first);
    } else {
        assert(from_since =~= from_branch);
    }
    lemma_read_revision(options.branch@, second);
    lemma_read_one(options.branch@, paths, second);
    lemma_read_paths(options.paths, LogSelection { revision: Some(options.branch@), ..second });
}

proof fn lemma_log_arguments(options: GitLogOptions, n: Seq<char>, rest: Seq<Seq<char>>)
    requires
        n == decimal(
            if options.limit == 0 {
                1nat
            } else {
                options.limit as nat
            },
        ),
        rest == argument_if(options.include_diffs, "--patch"@) + (seq![LOG_FORMAT@] + (argument_if(
            options.include_file_stats,
            "--numstat"@,
        ) + (argument_if(!options.include_merges, "--no-merges"@) + (pattern_arguments(
            text_of(options.diff_pattern),
        ) + since_arguments(text_of(options.since)) + seq![options.branch@] + path_arguments(
            options.paths,
        ))))),
    ensures
        log_arguments(options).len() > 0,
        log_arguments(options)[0] == "log"@,
        log_arguments(options).drop_first() == seq!["--no-color"@] + (seq!["--date-order"@] + (
        seq!["--max-count="@ + n] + rest)),
{
    let lead = seq!["log"@, "--no-color"@, "--date-order"@, "--max-count="@ + n];
    let patches = argument_if(options.include_diffs, "--patch"@);
    let format = seq![LOG_FORMAT@];
    let counts = argument_if(options.include_file_stats, "--numstat"@);
    let merges = argument_if(!options.include_merges, "--no-merges"@);
    let pattern = pattern_arguments(text_of(options.diff_pattern));
    let since = since_arguments(text_of(options.since));
    let branch = seq![options.branch@];
    let paths = path_arguments(options.paths);
    let head = lead + patches + format + counts + merges;
    let tail = pattern + since + branch + paths;
    lemma_regroup(head, pattern, since);
    lemma_regroup(head, pattern + since, branch);
    lemma_regroup(head, pattern + since + branch, paths);
    lemma_regroup(lead + patches + format + counts, merges, tail);
    lemma_regroup(lead + patches + format, counts, merges + tail);
    lemma_regroup(lead + patches, format, counts + (merges + tail));
    lemma_regroup(lead, patches, format + (counts + (merges + tail)));
    assert(log_arguments(options) == lead + rest);
    lemma_drop_lead("log"@, "--no-color"@, "--date-order"@, "--max-count="@ + n, rest);
}

proof fn lemma_regroup(a: Seq<Seq<char>>, b: Seq<Seq<char>>, c: Seq<Seq<char>>)
    ensures
        a + b + c == a + (b + c),
{
    assert(a + b + c =~= a + (b + c));
}

proof fn lemma_drop_lead(
    a: Seq<char>,
    b: Seq<char>,
    c: Seq<char>,
    d: Seq<char>,
    rest: Seq<Seq<char>>,
)
    ensures
        (seq![a, b, c, d] + rest)[0] == a,
        (seq![a, b, c, d] + rest).drop_first() == seq![b] + (seq![c] + (seq![d] + rest)),
{
    assert((seq![a, b, c, d] + rest).drop_first() =~= seq![b] + (seq![c] + (seq![d] + rest)));
}

proof fn lemma_read_lead(n: Seq<char>, rest: Seq<Seq<char>>, asked: LogSelection)
    ensures
        read_arguments(
            seq!["--no-color"@] + (seq!["--date-order"@] + (seq!["--max-count="@ + n] + rest)),
            asked,
        ) == read_arguments(rest, LogSelection { at_most: Some(n), ..asked }),
{
    let from_count = seq!["--max-count="@ + n] + rest;
    lemma_read_plain(asked);
    lemma_read_one("--no-color"@, seq!["--date-order"@] + from_count, asked);
    lemma_read_one("--date-order"@, from_count, asked);
    lemma_read_count(n, asked);
    lemma_read_one("--max-count="@ + n, rest, asked);
}

proof fn lemma_read_switch(
    wanted: bool,
    name: Seq<char>,
    rest: Seq<Seq<char>>,
    asked: LogSelection,
)
    requires
        name != "--"@,
        name != "-G"@,
    ensures
        read_arguments(argument_if(wanted, name) + rest, asked) == read_arguments(
            rest,
            if wanted {
                read_argument(name, asked)
            } else {
                asked
            },
        ),
{
    if wanted {
        lemma_read_one(name, rest, asked);
    } else {
        assert(argument_if(wanted, name) + rest =~= rest);
    }
}

proof fn lemma_read_switches(options: GitLogOptions, tail: Seq<Seq<char>>, asked: LogSelection)
    requires
        asked.merges,
        !asked.patches,
        !asked.counts,
    ensures
        read_arguments(
            argument_if(options.include_diffs, "--patch"@) + (seq![LOG_FORMAT@] + (argument_if(
                options.include_file_stats,
                "--numstat"@,
            ) + (argument_if(!options.include_merges, "--no-merges"@) + tail))),
            asked,
        ) == read_arguments(
            tail,
            LogSelection {
                patches: options.include_diffs,
                counts: options.include_file_stats,
                merges: options.include_merges,
                ..asked
            },
        ),
{
    let from_merges = argument_if(!options.include_merges, "--no-merges"@) + tail;
    let from_counts = argument_if(options.include_file_stats, "--numstat"@) + from_merges;
    let with_patches = LogSelection { patches: options.include_diffs, ..asked };
    let with_counts = LogSelection { counts: options.include_file_stats, ..with_patches };
    lemma_read_flags(asked);
    lemma_read_switch(options.include_diffs, "--patch"@, seq![LOG_FORMAT@] + from_counts, asked);
    lemma_read_plain(with_patches);
    lemma_read_one(LOG_FORMAT@, from_counts, with_patches);
    lemma_read_flags(with_patches);
    lemma_read_switch(options.include_file_stats, "--numstat"@, from_merges, with_patches);
    lemma_read_flags(with_counts);
    lemma_read_switch(!options.include_merges, "--no-merges"@, tail, with_counts);
}

/// What `git log` is asked for by the arguments that are made of these options. It leaves
/// out the commits before the wanted time and none for being too late, lists at least one
/// and at most the wanted number of commits, of the wanted branch and paths, with those
/// changed lines, and with merges, patches and counts as they are wanted.
pub proof fn law_log_asks(options: GitLogOptions)
    requires
        options.branch@.len() == 0 || options.branch@[0] != '-',
    ensures
        log_arguments(options).len() > 0,
        log_arguments(options)[0] == "log"@,
        ({
            let asked = read_arguments(log_arguments(options).drop_first(), whole_log());
            &&& asked.not_before == match options.since {
                Some(s) => Some(since_of(s@)),
                None => None,
            }
            &&& asked.not_after is None
            &&& asked.at_most == Some(
                decimal(
                    if options.limit == 0 {
                        1nat
                    } else {
                        options.limit as nat
                    },
                ),
            )
            &&& asked.changed_lines == match options.diff_pattern {
                Some(p) => if trimmed(p@).len() > 0 {
                    Some(trimmed(p@))
                } else {
                    None
                },
                None => None,
            }
            &&& asked.revision == Some(options.branch@)
            &&& asked.paths == match options.paths {
                Some(list) => trimmed_all(texts(list@)),
                None => Seq::empty(),
            }
            &&& asked.merges == options.include_merges
            &&& asked.patches == options.include_diffs
            &&& asked.counts == options.include_file_stats
        }),
{
    let n = decimal(
        if options.limit == 0 {
            1nat
        } else {
            options.limit as nat
        },
    );
    let asked = whole_log();
    let tail = pattern_arguments(text_of(options.diff_pattern)) + since_arguments(
        text_of(options.since),
    ) + seq![options.branch@] + path_arguments(options.paths);
    let merges = argument_if(!options.include_merges, "--no-merges"@);
    let counts = argument_if(options.include_file_stats, "--numstat"@);
    let patches = argument_if(options.include_diffs, "--patch"@);
    let rest = patches + (seq![LOG_FORMAT@] + (counts + (merges + tail)));
    lemma_log_arguments(options, n, rest);
    lemma_read_lead(n, rest, asked);
    let lead = LogSelection { at_most: Some(n), ..asked };
    lemma_read_switches(options, tail, lead);
    lemma_read_tail(
        options,
        LogSelection {
            patches: options.include_diffs,
            counts: options.include_file_stats,
            merges: options.include_merges,
            ..lead
        },
    );
}

/// The list of arguments holds the option that leaves out what is older than the wanted
/// time, and none that leaves out what is younger than some time.
pub proof fn law_since_bounds_below(since: Option<Seq<char>>)
    ensures
        since matches Some(s) ==> since_arguments(since).contains("--since="@ + since_of(s)),
        since is None ==> since_arguments(since).len() == 0,
        forall|k: int|
            0 <= k < since_arguments(since).len() ==> option_value(
                #[trigger] since_arguments(since)[k],
                "--until="@,
            ) is None && option_value(since_arguments(since)[k], "--before="@) is None,
{
    if let Some(s) = since {
        reveal_strlit("--since=");
        reveal_strlit("--until=");
        reveal_strlit("--before=");
        let a = "--since="@ + since_of(s);
        assert(since_arguments(since)[0] == a);
        lemma_other_option(a, "--until="@, 2);
        lemma_other_option(a, "--before="@, 2);
    }
}

/// A unit of time that git has a word for.
pub open spec fn unit_of_time(word: Seq<char>) -> bool {
    word == "days"@ || word == "weeks"@ || word == "months"@ || word == "years"@
}

/// A number and the first letter of days, weeks, months or years, in either case, become
/// the number, a full stop and that word. Every other text stays as it is.
pub proof fn law_since_words(text: Seq<char>, n: Seq<char>, unit: Seq<char>)
    ensures
        ({
            let r = since_words(text, Some(n), Some(unit));
            ||| exists|word: Seq<char>|
                {
                    &&& #[trigger] unit_of_time(word)
                    &&& lowercase(unit) == word.take(1)
                    &&& r == n + "."@ + word
                }
            ||| r == text && forall|word: Seq<char>| #[trigger]
                unit_of_time(word) ==> lowercase(unit) != word.take(1)
        }),
        since_words(text, None, Some(unit)) == text,
        since_words(text, Some(n), None) == text,
{
    reveal_strlit("days");
    reveal_strlit("weeks");
    reveal_strlit("months");
    reveal_strlit("years");
    reveal_strlit("d");
    reveal_strlit("w");
    reveal_strlit("m");
    reveal_strlit("y");
    reveal_strlit(".");
    reveal_strlit(".days");
    reveal_strlit(".weeks");
    reveal_strlit(".months");
    reveal_strlit(".years");
    assert(n + ".days"@ =~= n + "."@ + "days"@);
    assert(n + ".weeks"@ =~= n + "."@ + "weeks"@);
    assert(n + ".months"@ =~= n + "."@ + "months"@);
    assert(n + ".years"@ =~= n + "."@ + "years"@);
    assert("days"@.take(1) =~= "d"@);
    assert("weeks"@.take(1) =~= "w"@);
    assert("months"@.take(1) =~= "m"@);
    assert("years"@.take(1) =~= "y"@);
    assert(unit_of_time("days"@) && unit_of_time("weeks"@) && unit_of_time("months"@)
        && unit_of_time("years"@));
}

/// Appends a text where the condition holds.
fn push_if(out: &mut Vec<String>, condition: bool, argument: &str)
    ensures
        texts(final(out)@) == texts(old(out)@) + argument_if(condition, argument@),
{
    if condition {
        push_text(out, argument.to_owned());
        assert(texts(out@) =~= texts(old(out)@) + argument_if(condition, argument@));
    } else {
        assert(texts(out@) =~= texts(old(out)@) + argument_if(condition, argument@));
    }
}

/// Appends a list of texts.
pub fn append_texts(out: &mut Vec<String>, list: &Vec<String>)
    ensures
        texts(final(out)@) == texts(old(out)@) + texts(list@),
{
    let ghost before = texts(out@);
    let ghost all = texts(list@);
    let mut i: usize = 0;
    assert(before + all.take(0) =~= before);
    while i < list.len()
        invariant
            i <= list@.len(),
            all == texts(list@),
            texts(out@) == before + all.take(i as int),
        decreases list.len() - i,
    {
        assert(before + all.take(i + 1) =~= (before + all.take(i as int)).push(list@[i as int]@));
        push_text(out, list[i].clone());
        i += 1;
    }
    assert(all.take(i as int) =~= all);
}

fn pattern_args(pattern: &Option<String>) -> (r: Vec<String>)
    ensures
        texts(r@) == pattern_arguments(text_of(*pattern)),
{
    let mut out: Vec<String> = Vec::new();
    if let Some(p) = trim_option(pattern) {
        push_text(&mut out, "-G".to_owned());
        push_text(&mut out, p);
    }
    assert(texts(out@) =~= pattern_arguments(text_of(*pattern)));
    out
}

fn since_args(since: &Option<String>) -> (r: Vec<String>)
    ensures
        texts(r@) == since_arguments(text_of(*since)),
{
    let mut out: Vec<String> = Vec::new();
    if let Some(s) = since {
        let mut text = "--since=".to_owned();
        text.append(normalize_since_input(s.as_str()).as_str());
        push_text(&mut out, text);
    }
    assert(texts(out@) =~= since_arguments(text_of(*since)));
    out
}

fn path_args(paths: &Option<Vec<String>>) -> (r: Vec<String>)
    ensures
        texts(r@) == path_arguments(*paths),
{
    let mut out: Vec<String> = Vec::new();
    if let Some(list) = paths {
        let kept = trim_all(list);
        assert(texts(kept@).len() == kept@.len());
        if kept.len() > 0 {
            push_text(&mut out, "--".to_owned());
            assert(texts(out@) =~= seq!["--"@]);
            append_texts(&mut out, &kept);
            return out;
        }
    }
    assert(texts(out@) =~= path_arguments(*paths));
    out
}

/// The first arguments of `git`.
fn leading_args(limit: u32) -> (r: Vec<String>)
    ensures
        texts(r@) == seq![
            "log"@,
            "--no-color"@,
            "--date-order"@,
            "--max-count="@ + decimal(
                if limit == 0 {
                    1nat
                } else {
                    limit as nat
                },
            ),
        ],
{
    let mut out: Vec<String> = Vec::new();
    push_text(&mut out, "log".to_owned());
    push_text(&mut out, "--no-color".to_owned());
    push_text(&mut out, "--date-order".to_owned());
    let count: u32 = if limit == 0 {
        1
    } else {
        limit
    };
    let mut max_count = "--max-count=".to_owned();
    push_decimal(&mut max_count, count as u64);
    push_text(&mut out, max_count);
    assert(texts(out@) =~= seq!["log"@, "--no-color"@, "--date-order"@, max_count@]);
    out
}

/// The arguments of `git` for these options.
pub fn git_log_args(options: &GitLogOptions) -> (r: Vec<String>)
    ensures
        texts(r@) == log_arguments(*options),
{
    let mut out = leading_args(options.limit);
    push_if(&mut out, options.include_diffs, "--patch");
    push_if(&mut out, true, LOG_FORMAT);
    push_if(&mut out, options.include_file_stats, "--numstat");
    push_if(&mut out, !options.include_merges, "--no-merges");
    let pattern = pattern_args(&options.diff_pattern);
    append_texts(&mut out, &pattern);
    let since = since_args(&options.since);
    append_texts(&mut out, &since);
    push_if(&mut out, true, options.branch.as_str());
    let paths = path_args(&options.paths);
    append_texts(&mut out, &paths);
    out
}

/// The options of the log that a request asks for.
pub fn timeline_options(params: &RepositoryTimelineParams) -> (r: GitLogOptions)
    ensures
        r.branch@ == match params.branch {
            Some(b) => b@,
            None => "HEAD"@,
        },
        r.limit == match params.limit {
            Some(n) => n,
            None => DEFAULT_TIMELINE_LIMIT,
        },
        text_of(r.since) == text_of(params.since),
        r.include_merges == match params.include_merges {
            Some(b) => b,
            None => true,
        },
        r.include_file_stats == match params.include_file_stats {
            Some(b) => b,
            None => true,
        },
        r.include_diffs == match params.include_diffs {
            Some(b) => b,
            None => false,
        },
        r.paths is Some == params.paths is Some,
        r.paths is Some ==> texts(r.paths->0@) == texts(params.paths->0@),
        text_of(r.diff_pattern) == text_of(params.diff_pattern),
{
    let branch = match &params.branch {
        Some(b) => b.clone(),
        None => "HEAD".to_owned(),
    };
    let limit: u32 = match params.limit {
        Some(n) => n,
        None => DEFAULT_TIMELINE_LIMIT,
    };
    let since = match &params.since {
        Some(s) => Some(s.clone()),
        None => None,
    };
    let include_merges = match params.include_merges {
        Some(b) => b,
        None => true,
    };
    let include_file_stats = match params.include_file_stats {
        Some(b) => b,
        None => true,
    };
    let include_diffs = match params.include_diffs {
        Some(b) => b,
        None => false,
    };
    let paths = match &params.paths {
        Some(list) => Some(clone_texts(list)),
        None => None,
    };
    let diff_pattern = match &params.diff_pattern {
        Some(p) => Some(p.clone()),
        None => None,
    };
    GitLogOptions {
        branch,
        limit,
        since,
        include_merges,
        include_file_stats,
        include_diffs,
        paths,
        diff_pattern,
    }
}

/// A list with the same texts.
pub fn clone_texts(list: &Vec<String>) -> (r: Vec<String>)
    ensures
        texts(r@) == texts(list@),
{
    let ghost all = texts(list@);
    let mut out: Vec<String> = Vec::new();
    let mut i: usize = 0;
    assert(texts(out@) =~= all.take(0));
    while i < list.len()
        invariant
            i <= list@.len(),
            all == texts(list@),
            texts(out@) == all.take(i as int),
        decreases list.len() - i,
    {
        assert(all.take(i + 1) =~= all.take(i as int).push(list@[i as int]@));
        push_text(&mut out, list[i].clone());
        i += 1;
    }
    assert(all.take(i as int) =~= all);
    out
}

// ---------------------------------------------------------------------------
// Diff previews
// ---------------------------------------------------------------------------

/// The lines of a diff that a preview may show.
pub open spec fn preview_source(diff: Seq<char>) -> Seq<char> {
    let lines = lines_of(diff);
    joined(
        if lines.len() > DIFF_PREVIEW_MAX_LINES {
            lines.take(DIFF_PREVIEW_MAX_LINES as int)
        } else {
            lines
        },
        "\n"@,
    )
}

/// What a preview shows: as much as fits, but no line feed at the very end of what fits.
pub open spec fn preview_shown(text: Seq<char>) -> Seq<char> {
    if text.len() < DIFF_PREVIEW_MAX_CHARS {
        text
    } else if text[DIFF_PREVIEW_MAX_CHARS - 1] == '\n' {
        text.take(DIFF_PREVIEW_MAX_CHARS - 1)
    } else {
        text.take(DIFF_PREVIEW_MAX_CHARS as int)
    }
}

/// A preview leaves something out.
pub open spec fn preview_cut(diff: Seq<char>) -> bool {
    lines_of(diff).len() > DIFF_PREVIEW_MAX_LINES || preview_shown(preview_source(diff)).len()
        < preview_source(diff).len()
}

/// The preview of a diff: what is shown and, where something is left out, an ellipsis on
/// a line of its own.
pub open spec fn preview_of(diff: Seq<char>) -> Seq<char> {
    let shown = preview_shown(preview_source(diff));
    if !preview_cut(diff) {
        shown
    } else if shown.len() > 0 && shown.last() == '\n' {
        shown.push('…')
    } else {
        shown.push('\n').push('…')
    }
}

/// The preview of a diff.
pub fn build_diff_preview(diff: &str) -> (r: String)
    ensures
        r@ == preview_of(diff@),
{
    let lines = str_lines(diff);
    let ghost all = texts(lines@);
    assert(all.len() == lines@.len());
    let count: usize = if lines.len() > DIFF_PREVIEW_MAX_LINES {
        DIFF_PREVIEW_MAX_LINES
    } else {
        lines.len()
    };
    let shown_lines = slice_subrange(lines.as_slice(), 0, count);
    assert(texts(shown_lines@) =~= all.take(count as int));
    assert(all.take(all.len() as int) =~= all);
    let text = join(shown_lines, "\n");
    let v = chars_of(text.as_str());
    let mut end: usize = v.len();
    if v.len() >= DIFF_PREVIEW_MAX_CHARS {
        if v[DIFF_PREVIEW_MAX_CHARS - 1] == '\n' {
            end = DIFF_PREVIEW_MAX_CHARS - 1;
        } else {
            end = DIFF_PREVIEW_MAX_CHARS;
        }
    }
    let kept = slice_subrange(v.as_slice(), 0, end);
    assert(kept@ =~= preview_shown(text@));
    let mut out = string_of(kept);
    if lines.len() > DIFF_PREVIEW_MAX_LINES || end < v.len() {
        if !(end > 0 && v[end - 1] == '\n') {
            out.push('\n');
        }
        out.push('…');
    }
    out
}

/// A preview is never longer than its limit, a line feed and the ellipsis.
pub proof fn law_preview_bounded(diff: Seq<char>)
    ensures
        preview_of(diff).len() <= DIFF_PREVIEW_MAX_CHARS + 2,
{
}

/// A diff within both limits is shown whole.
pub proof fn law_short_diff_shown(diff: Seq<char>)
    requires
        lines_of(diff).len() <= DIFF_PREVIEW_MAX_LINES,
        joined(lines_of(diff), "\n"@).len() < DIFF_PREVIEW_MAX_CHARS,
    ensures
        preview_of(diff) == joined(lines_of(diff), "\n"@),
{
}

// ---------------------------------------------------------------------------
// What is stored and what is reported
// ---------------------------------------------------------------------------

/// Where a stored diff is found.
pub open spec fn stored_at(sha: Seq<char>) -> Seq<char> {
    "stored://repository_timeline/"@ + sha
}

/// Where a stored diff is found.
pub fn stored_diff(sha: &str) -> (r: String)
    ensures
        r@ == stored_at(sha@),
{
    let mut out = "stored://repository_timeline/".to_owned();
    out.append(sha);
    out
}

/// Two entries differ at most in what they say of the diff.
pub open spec fn same_but_diff(a: RepositoryTimelineEntry, b: RepositoryTimelineEntry) -> bool {
    a == (RepositoryTimelineEntry {
        diff: a.diff,
        diff_preview: a.diff_preview,
        diff_pointer: a.diff_pointer,
        ..b
    })
}

/// An entry as it is reported: in place of its diff it says where that is stored, and
/// shows a preview of it.
pub open spec fn is_reported(r: RepositoryTimelineEntry, entry: RepositoryTimelineEntry) -> bool {
    match entry.diff {
        Some(diff) => {
            &&& same_but_diff(r, entry)
            &&& text_of(r.diff) == Some(stored_at(entry.sha@))
            &&& text_of(r.diff_preview) == Some(preview_of(diff@))
            &&& text_of(r.diff_pointer) == Some(entry.sha@)
        },
        None => r == entry,
    }
}

/// An entry as it is reported.
pub fn report_entry(entry: RepositoryTimelineEntry) -> (r: RepositoryTimelineEntry)
    ensures
        is_reported(r, entry),
{
    let mut out = entry;
    match out.diff {
        Some(diff) => {
            out.diff_preview = Some(build_diff_preview(diff.as_str()));
            out.diff_pointer = Some(out.sha.clone());
            out.diff = Some(stored_diff(out.sha.as_str()));
        },
        None => {
            out.diff = None;
        },
    }
    out
}

/// The entries as they are reported.
pub fn transform_entries_for_response(entries: Vec<RepositoryTimelineEntry>) -> (r: Vec<
    RepositoryTimelineEntry,
>)
    ensures
        r@.len() == entries@.len(),
        forall|i: int| 0 <= i < r@.len() ==> is_reported(#[trigger] r@[i], entries@[i]),
{
    let ghost all = entries@;
    let mut out: Vec<RepositoryTimelineEntry> = Vec::new();
    let ghost mut n: int = 0;
    for entry in it: entries
        invariant
            it.seq() == all,
            n == it.index(),
            out@.len() == n,
            forall|i: int| 0 <= i < n ==> is_reported(#[trigger] out@[i], all[i]),
    {
        out.push(report_entry(entry));
        proof {
            n = n + 1;
        }
    }
    out
}

/// An entry as it is stored: without anything on the diff, which is stored beside it.
pub open spec fn stored_form(entry: RepositoryTimelineEntry, captured_at: i64) -> RepositoryTimelineEntry {
    RepositoryTimelineEntry {
        diff: None,
        diff_preview: None,
        diff_pointer: None,
        captured_at: Some(captured_at),
        ..entry
    }
}

/// An entry as it is stored: without anything on the diff, which is stored beside it.
pub fn stored_entry(entry: RepositoryTimelineEntry, captured_at: i64) -> (r:
    RepositoryTimelineEntry)
    ensures
        r == stored_form(entry, captured_at),
{
    let mut out = entry;
    out.diff = None;
    out.diff_preview = None;
    out.diff_pointer = None;
    out.captured_at = Some(captured_at);
    out
}

/// A commit as the database holds it, found by its hash.
#[derive(Debug)]
pub struct TimelineRow {
    pub commit_sha: String,
    pub branch: String,
    pub captured_at: i64,
    pub entry: RepositoryTimelineEntry,
    pub diff: Option<String>,
}

/// The row holds the entry, as it is stored, and its whole diff.
pub open spec fn is_row_of(
    row: TimelineRow,
    entry: RepositoryTimelineEntry,
    branch: Seq<char>,
    captured_at: i64,
) -> bool {
    &&& row.commit_sha@ == entry.sha@
    &&& row.branch@ == branch
    &&& row.captured_at == captured_at
    &&& row.entry == stored_form(entry, captured_at)
    &&& row.diff == entry.diff
}

/// Each row holds the entry at its place.
pub open spec fn are_rows_of(
    rows: Seq<TimelineRow>,
    entries: Seq<RepositoryTimelineEntry>,
    branch: Seq<char>,
    captured_at: i64,
) -> bool {
    &&& rows.len() == entries.len()
    &&& forall|i: int|
        0 <= i < rows.len() ==> is_row_of(#[trigger] rows[i], entries[i], branch, captured_at)
}

/// The rows in which the entries are stored.
pub fn timeline_rows(
    entries: Vec<RepositoryTimelineEntry>,
    branch: &str,
    captured_at: i64,
) -> (r: Vec<TimelineRow>)
    ensures
        are_rows_of(r@, entries@, branch@, captured_at),
{
    let ghost all = entries@;
    let mut out: Vec<TimelineRow> = Vec::new();
    let ghost mut n: int = 0;
    for entry in it: entries
        invariant
            it.seq() == all,
            n == it.index(),
            out@.len() == n,
            forall|i: int|
                0 <= i < n ==> is_row_of(#[trigger] out@[i], all[i], branch@, captured_at),
    {
        let mut entry = entry;
        let commit_sha = entry.sha.clone();
        let diff = entry.diff;
        entry.diff = None;
        out.push(
            TimelineRow {
                commit_sha,
                branch: branch.to_owned(),
                captured_at,
                entry: stored_entry(entry, captured_at),
                diff,
            },
        );
        proof {
            n = n + 1;
        }
    }
    out
}

/// What is said of the diff of a commit: where it is stored, and a preview of it.
pub open spec fn tells_of_diff(
    e: RepositoryTimelineEntry,
    commit_sha: Seq<char>,
    diff: Option<String>,
) -> bool {
    match diff {
        Some(d) => {
            &&& text_of(e.diff) == Some(stored_at(commit_sha))
            &&& text_of(e.diff_preview) == Some(preview_of(d@))
            &&& text_of(e.diff_pointer) == Some(commit_sha)
        },
        None => e.diff is None && e.diff_preview is None && e.diff_pointer is None,
    }
}

/// The response reports a stored entry, with the stored diff and a preview of it.
pub open spec fn is_lookup(
    r: RepositoryTimelineEntryLookupResponse,
    database_path: String,
    commit_sha: Seq<char>,
    entry: RepositoryTimelineEntry,
    captured_at: i64,
    diff: Option<String>,
) -> bool {
    &&& r.database_path == database_path
    &&& r.diff == diff
    &&& same_but_diff(
        r.entry,
        RepositoryTimelineEntry { captured_at: Some(captured_at), ..entry },
    )
    &&& tells_of_diff(r.entry, commit_sha, diff)
}

/// A stored commit as it is reported: with the stored diff and a preview of it.
pub fn lookup_response(
    database_path: String,
    commit_sha: &str,
    entry: RepositoryTimelineEntry,
    captured_at: i64,
    diff: Option<String>,
) -> (r: RepositoryTimelineEntryLookupResponse)
    ensures
        is_lookup(r, database_path, commit_sha@, entry, captured_at, diff),
{
    let mut out = entry;
    match &diff {
        Some(d) => {
            out.diff_preview = Some(build_diff_preview(d.as_str()));
            out.diff_pointer = Some(commit_sha.to_owned());
            out.diff = Some(stored_diff(commit_sha));
        },
        None => {
            out.diff_preview = None;
            out.diff_pointer = None;
            out.diff = None;
        },
    }
    out.captured_at = Some(captured_at);
    RepositoryTimelineEntryLookupResponse { database_path, entry: out, diff }
}

/// The answer to a lookup that found this row: the commit, or that there is none.
pub open spec fn answers_lookup(
    r: Result<RepositoryTimelineEntryLookupResponse, RepositoryTimelineError>,
    database_path: String,
    commit_sha: String,
    row: Option<TimelineRow>,
) -> bool {
    match row {
        Some(row) => r matches Ok(found) && is_lookup(
            found,
            database_path,
            commit_sha@,
            row.entry,
            row.captured_at,
            row.diff,
        ),
        None => r == Err::<RepositoryTimelineEntryLookupResponse, RepositoryTimelineError>(
            RepositoryTimelineError::EntryNotFound { commit_sha, path: database_path },
        ),
    }
}

/// Answers a lookup with what was found in the database.
pub fn answer_lookup(database_path: String, commit_sha: String, row: Option<TimelineRow>) -> (r:
    Result<RepositoryTimelineEntryLookupResponse, RepositoryTimelineError>)
    ensures
        answers_lookup(r, database_path, commit_sha, row),
{
    match row {
        Some(row) => Ok(
            lookup_response(
                database_path,
                commit_sha.as_str(),
                row.entry,
                row.captured_at,
                row.diff,
            ),
        ),
        None => Err(RepositoryTimelineError::EntryNotFound { commit_sha, path: database_path }),
    }
}

/// The rows of a database by their hashes, after more rows are stored: a row replaces an
/// earlier one with its hash.
pub open spec fn rows_after(table: Map<Seq<char>, TimelineRow>, rows: Seq<TimelineRow>) -> Map<
    Seq<char>,
    TimelineRow,
>
    decreases rows.len(),
{
    if rows.len() == 0 {
        table
    } else {
        rows_after(table, rows.drop_last()).insert(rows.last().commit_sha@, rows.last())
    }
}

/// The row that is found for a hash.
pub open spec fn found_row(table: Map<Seq<char>, TimelineRow>, sha: Seq<char>) -> Option<TimelineRow> {
    if table.contains_key(sha) {
        Some(table[sha])
    } else {
        None
    }
}

proof fn lemma_row_found(table: Map<Seq<char>, TimelineRow>, rows: Seq<TimelineRow>, i: int)
    requires
        0 <= i < rows.len(),
        forall|j: int|
            i < j < rows.len() ==> (#[trigger] rows[j]).commit_sha@ != rows[i].commit_sha@,
    ensures
        found_row(rows_after(table, rows), rows[i].commit_sha@) == Some(rows[i]),
    decreases rows.len(),
{
    if i < rows.len() - 1 {
        let front = rows.drop_last();
        assert(rows[rows.len() - 1].commit_sha@ != rows[i].commit_sha@);
        assert forall|j: int| i < j < front.len() implies (#[trigger] front[j]).commit_sha@
            != front[i].commit_sha@ by {
            assert(front[j] == rows[j]);
        }
        lemma_row_found(table, front, i);
    }
}

/// A commit that was stored is read back: everything that was known of it, the time at
/// which it was stored, its whole diff beside it, a preview of the diff, and where the diff
/// is found. Of two entries for one commit the later one is read back.
pub proof fn law_timeline_read_back(
    table: Map<Seq<char>, TimelineRow>,
    entries: Seq<RepositoryTimelineEntry>,
    rows: Seq<TimelineRow>,
    branch: Seq<char>,
    captured_at: i64,
    i: int,
    database_path: String,
    commit_sha: String,
    answer: Result<RepositoryTimelineEntryLookupResponse, RepositoryTimelineError>,
)
    requires
        are_rows_of(rows, entries, branch, captured_at),
        0 <= i < entries.len(),
        forall|j: int| i < j < entries.len() ==> (#[trigger] entries[j]).sha@ != entries[i].sha@,
        commit_sha@ == entries[i].sha@,
        answers_lookup(
            answer,
            database_path,
            commit_sha,
            found_row(rows_after(table, rows), commit_sha@),
        ),
    ensures
        ({
            &&& answer matches Ok(r)
            &&& r.database_path == database_path
            &&& r.diff == entries[i].diff
            &&& same_but_diff(
                r.entry,
                RepositoryTimelineEntry { captured_at: Some(captured_at), ..entries[i] },
            )
            &&& tells_of_diff(r.entry, entries[i].sha@, entries[i].diff)
        }),
{
    assert(is_row_of(rows[i], entries[i], branch, captured_at));
    assert forall|j: int| i < j < rows.len() implies (#[trigger] rows[j]).commit_sha@
        != rows[i].commit_sha@ by {
        assert(is_row_of(rows[j], entries[j], branch, captured_at));
    }
    lemma_row_found(table, rows, i);
}

/// Storing commits leaves what is found for every other commit. One that was never stored
/// is answered with that it is not there.
pub proof fn law_other_commits_stay(
    table: Map<Seq<char>, TimelineRow>,
    entries: Seq<RepositoryTimelineEntry>,
    rows: Seq<TimelineRow>,
    branch: Seq<char>,
    captured_at: i64,
    database_path: String,
    commit_sha: String,
    answer: Result<RepositoryTimelineEntryLookupResponse, RepositoryTimelineError>,
)
    requires
        are_rows_of(rows, entries, branch, captured_at),
        forall|j: int| 0 <= j < entries.len() ==> (#[trigger] entries[j]).sha@ != commit_sha@,
        answers_lookup(
            answer,
            database_path,
            commit_sha,
            found_row(rows_after(table, rows), commit_sha@),
        ),
    ensures
        answers_lookup(answer, database_path, commit_sha, found_row(table, commit_sha@)),
        !table.contains_key(commit_sha@) ==> answer == Err::<
            RepositoryTimelineEntryLookupResponse,
            RepositoryTimelineError,
        >(RepositoryTimelineError::EntryNotFound { commit_sha, path: database_path }),
    decreases rows.len(),
{
    if rows.len() > 0 {
        assert(is_row_of(rows.last(), entries.last(), branch, captured_at));
        assert(entries[entries.len() - 1].sha@ != commit_sha@);
        let front = entries.drop_last();
        assert forall|i: int| 0 <= i < front.len() implies is_row_of(
            #[trigger] rows.drop_last()[i],
            front[i],
            branch,
            captured_at,
        ) by {
            assert(is_row_of(rows[i], entries[i], branch, captured_at));
        }
        assert forall|j: int| 0 <= j < front.len() implies (#[trigger] front[j]).sha@
            != commit_sha@ by {
            assert(entries[j].sha@ != commit_sha@);
        }
        law_other_commits_stay(
            table,
            front,
            rows.drop_last(),
            branch,
            captured_at,
            database_path,
            commit_sha,
            answer,
        );
    }
}

/// The insertions of the first `n` entries together, around the ends of 64 bits.
pub open spec fn insertions_of(entries: Seq<RepositoryTimelineEntry>, n: int) -> i64
    decreases n,
{
    if n <= 0 {
        0
    } else {
        insertions_of(entries, n - 1).wrapping_add(entries[n - 1].insertions)
    }
}

/// The deletions of the first `n` entries together, around the ends of 64 bits.
pub open spec fn deletions_of(entries: Seq<RepositoryTimelineEntry>, n: int) -> i64
    decreases n,
{
    if n <= 0 {
        0
    } else {
        deletions_of(entries, n - 1).wrapping_add(entries[n - 1].deletions)
    }
}

/// How many of the first `n` entries are merges.
pub open spec fn merges_of(entries: Seq<RepositoryTimelineEntry>, n: int) -> nat
    decreases n,
{
    if n <= 0 {
        0
    } else {
        merges_of(entries, n - 1) + if entries[n - 1].is_merge {
            1nat
        } else {
            0nat
        }
    }
}

/// The entries' insertions, deletions and merges together.
pub fn timeline_totals(entries: &Vec<RepositoryTimelineEntry>) -> (r: (i64, i64, usize))
    ensures
        r.0 == insertions_of(entries@, entries@.len() as int),
        r.1 == deletions_of(entries@, entries@.len() as int),
        r.2 == merges_of(entries@, entries@.len() as int),
{
    let mut insertions: i64 = 0;
    let mut deletions: i64 = 0;
    let mut merges: usize = 0;
    let mut i: usize = 0;
    while i < entries.len()
        invariant
            i <= entries@.len(),
            insertions == insertions_of(entries@, i as int),
            deletions == deletions_of(entries@, i as int),
            merges == merges_of(entries@, i as int),
            merges <= i,
        decreases entries.len() - i,
    {
        insertions = insertions.wrapping_add(entries[i].insertions);
        deletions = deletions.wrapping_add(entries[i].deletions);
        if entries[i].is_merge {
            merges += 1;
        }
        i += 1;
    }
    (insertions, deletions, merges)
}

/// The entries with the time at which they were read.
pub fn stamp_entries(entries: Vec<RepositoryTimelineEntry>, captured_at: i64) -> (r: Vec<
    RepositoryTimelineEntry,
>)
    ensures
        r@.len() == entries@.len(),
        forall|i: int|
            0 <= i < r@.len() ==> #[trigger] r@[i] == (RepositoryTimelineEntry {
                captured_at: Some(captured_at),
                ..entries@[i]
            }),
{
    let ghost all = entries@;
    let mut out: Vec<RepositoryTimelineEntry> = Vec::new();
    let ghost mut n: int = 0;
    for entry in it: entries
        invariant
            it.seq() == all,
            n == it.index(),
            out@.len() == n,
            forall|i: int|
                0 <= i < n ==> #[trigger] out@[i] == (RepositoryTimelineEntry {
                    captured_at: Some(captured_at),
                    ..all[i]
                }),
    {
        let mut stamped = entry;
        stamped.captured_at = Some(captured_at);
        out.push(stamped);
        proof {
            n = n + 1;
        }
    }
    out
}

/// The timeline as it is reported.
pub fn timeline_response(
    options: GitLogOptions,
    repository_root: String,
    entries: Vec<RepositoryTimelineEntry>,
    remote_url: Option<String>,
    database_path: Option<String>,
) -> (r: RepositoryTimelineResponse)
    ensures
        r.repository_root == repository_root,
        r.branch == options.branch,
        r.limit == options.limit,
        r.since == options.since,
        r.include_merges == options.include_merges,
        r.include_file_stats == options.include_file_stats,
        r.include_diffs == options.include_diffs,
        match options.paths {
            Some(list) => r.paths is Some && texts(r.paths->0@) == trimmed_all(texts(list@)),
            None => r.paths is None,
        },
        text_of(r.diff_pattern) == trimmed_option(text_of(options.diff_pattern)),
        r.total_commits == entries@.len(),
        r.merge_commits == merges_of(entries@, entries@.len() as int),
        r.total_insertions == insertions_of(entries@, entries@.len() as int),
        r.total_deletions == deletions_of(entries@, entries@.len() as int),
        r.entries@.len() == entries@.len(),
        forall|i: int|
            0 <= i < entries@.len() ==> is_reported(#[trigger] r.entries@[i], entries@[i]),
        r.remote_url == remote_url,
        r.database_path == database_path,
{
    let (total_insertions, total_deletions, merge_commits) = timeline_totals(&entries);
    let paths = match &options.paths {
        Some(list) => Some(trim_all(list)),
        None => None,
    };
    let diff_pattern = trim_option(&options.diff_pattern);
    let reported = transform_entries_for_response(entries);
    RepositoryTimelineResponse {
        repository_root,
        branch: options.branch,
        limit: options.limit,
        since: options.since,
        include_merges: options.include_merges,
        include_file_stats: options.include_file_stats,
        include_diffs: options.include_diffs,
        paths,
        diff_pattern,
        total_commits: reported.len(),
        merge_commits,
        total_insertions,
        total_deletions,
        entries: reported,
        remote_url,
        database_path,
    }
}

// ---------------------------------------------------------------------------
// What a timeline tells
// ---------------------------------------------------------------------------

proof fn lemma_totals_stay(
    entries: Seq<RepositoryTimelineEntry>,
    e: RepositoryTimelineEntry,
    n: int,
)
    requires
        n <= entries.len(),
    ensures
        insertions_of(entries.push(e), n) == insertions_of(entries, n),
        deletions_of(entries.push(e), n) == deletions_of(entries, n),
        merges_of(entries.push(e), n) == merges_of(entries, n),
    decreases n,
{
    if n > 0 {
        lemma_totals_stay(entries, e, n - 1);
    }
}

/// A commit more adds its insertions, its deletions, and itself to the merges where it is
/// one.
pub proof fn law_totals(entries: Seq<RepositoryTimelineEntry>, e: RepositoryTimelineEntry)
    ensures
        ({
            let n = entries.len() as int;
            let all = entries.push(e);
            &&& i64::MIN <= insertions_of(entries, n) + e.insertions <= i64::MAX ==> insertions_of(
                all,
                n + 1,
            ) == insertions_of(entries, n) + e.insertions
            &&& i64::MIN <= deletions_of(entries, n) + e.deletions <= i64::MAX ==> deletions_of(
                all,
                n + 1,
            ) == deletions_of(entries, n) + e.deletions
            &&& e.is_merge ==> merges_of(all, n + 1) == merges_of(entries, n) + 1
            &&& !e.is_merge ==> merges_of(all, n + 1) == merges_of(entries, n)
            &&& insertions_of(entries, 0) == 0 && deletions_of(entries, 0) == 0 && merges_of(
                entries,
                0,
            ) == 0
        }),
{
    lemma_totals_stay(entries, e, entries.len() as int);
}

/// A blank text is none, and no text keeps white space around it.
pub proof fn law_trimmed_option(value: Seq<char>)
    ensures
        trimmed_option(None) is None,
        trimmed(value).len() == 0 ==> trimmed_option(Some(value)) is None,
        trimmed(value).len() > 0 ==> trimmed_option(Some(value)) == Some(trimmed(value)),
{
}

/// A preview shows the beginning of the diff, line by line as it is. Where it leaves
/// something out, it says so with an ellipsis on a line of its own; where it does not, it
/// is the whole diff.
pub proof fn law_preview(diff: Seq<char>)
    ensures
        ({
            let lines = lines_of(diff);
            let whole = joined(lines, "\n"@);
            let kept = if lines.len() > 200 {
                joined(lines.take(200), "\n"@)
            } else {
                whole
            };
            let p = preview_of(diff);
            &&& lines.len() <= 200 && kept.len() < 4000 ==> p == whole
            &&& lines.len() > 200 || kept.len() > 4000 ==> p.len() >= 2 && p.last() == '…' && p[p.len()
                - 2] == '\n'
            &&& forall|i: int| 0 <= i < p.len() - 2 ==> i < kept.len() && p[i] == #[trigger] kept[i]
            &&& kept.len() >= 4000 ==> p.len() >= 3999
        }),
{
}

/// An entry is reported with everything but its diff: in the place of that stands where it
/// is stored, by the entry's own hash, and the hash as a pointer.
pub proof fn law_reported(r: RepositoryTimelineEntry, entry: RepositoryTimelineEntry)
    requires
        is_reported(r, entry),
    ensures
        r.sha == entry.sha && r.author == entry.author && r.committer == entry.committer
            && r.subject == entry.subject && r.parents == entry.parents && r.insertions
            == entry.insertions && r.deletions == entry.deletions && r.file_changes
            == entry.file_changes && r.is_merge == entry.is_merge && r.author_date
            == entry.author_date && r.committer_date == entry.committer_date,
        entry.diff is Some ==> (r.diff matches Some(d) && d@ == "stored://repository_timeline/"@
            + entry.sha@),
        entry.diff is Some ==> (r.diff_pointer matches Some(p) && p@ == entry.sha@),
        entry.diff matches Some(d) ==> (r.diff_preview matches Some(p) && p@ == preview_of(d@)),
        entry.diff is None ==> r.diff is None,
{
}

/// A row is stored under the hash of its commit, with its branch and the time, and holds the
/// whole diff beside an entry that speaks of none.
pub proof fn law_row(
    row: TimelineRow,
    entry: RepositoryTimelineEntry,
    branch: Seq<char>,
    captured_at: i64,
)
    requires
        is_row_of(row, entry, branch, captured_at),
    ensures
        row.commit_sha@ == entry.sha@,
        row.branch@ == branch,
        row.captured_at == captured_at,
        row.diff == entry.diff,
        row.entry.diff is None && row.entry.diff_preview is None && row.entry.diff_pointer is None,
        row.entry.captured_at == Some(captured_at),
        row.entry.sha == entry.sha && row.entry.author == entry.author && row.entry.subject
            == entry.subject && row.entry.file_changes == entry.file_changes,
{
}

/// The arguments for a time ask for what came after it: there are none without one, and no
/// argument bounds the log above.
proof fn law_since_answers(since: &Option<String>, arguments: Vec<String>)
    requires
        call_ensures(since_args, (since,), arguments),
    ensures
        since is None ==> arguments@.len() == 0,
        since matches Some(s) ==> arguments@.len() == 1 && arguments@[0]@ == "--since="@ + since_of(
            s@,
        ),
{
    assert(texts(arguments@).len() == arguments@.len());
    if arguments@.len() > 0 {
        assert(texts(arguments@)[0] == arguments@[0]@);
    }
}

} // verus!
