//! The state of an index.

use vstd::prelude::*;
use crate::bundle_graph::text_of;
use crate::decimal::{parse_signed, signed_of};
use crate::git_remote::wide;
use crate::ingest::DEFAULT_DB_FILENAME;
use crate::paths::{join_path, path_in};
use crate::pieces::{filled, keep_filled, texts};
use crate::text::same_text;

verus! {

/// How many earlier runs are listed where the request does not say.
pub const DEFAULT_HISTORY_LIMIT: u32 = 5;

/// A request for the state of an index.
#[derive(Debug)]
pub struct IndexStatusParams {
    pub root: Option<String>,
    pub database_name: Option<String>,
    pub history_limit: Option<u32>,
}

/// A run that took a workspace in.
#[derive(Debug, Clone)]
pub struct IndexStatusIngestion {
    pub id: String,
    pub root: String,
    pub started_at: i64,
    pub finished_at: i64,
    pub duration_ms: i64,
    pub file_count: i64,
    pub skipped_count: i64,
    pub deleted_count: i64,
}

/// The state of an index.
#[derive(Debug, Clone)]
pub struct IndexStatusResponse {
    pub database_path: String,
    pub database_exists: bool,
    pub database_size_bytes: Option<u64>,
    pub total_files: u64,
    pub total_chunks: u64,
    pub embedding_models: Vec<String>,
    pub total_graph_nodes: u64,
    pub total_graph_edges: u64,
    pub latest_ingestion: Option<IndexStatusIngestion>,
    pub recent_ingestions: Vec<IndexStatusIngestion>,
    pub commit_sha: Option<String>,
    pub indexed_at: Option<i64>,
    pub current_commit_sha: Option<String>,
    pub is_stale: bool,
}

/// Why the state of an index cannot be told. What went wrong outside is given in words.
#[derive(Debug)]
pub enum IndexStatusError {
    InvalidRoot { path: String, source: String },
    Io { path: String, source: String },
    Sqlite(String),
    Git(String),
    Join(String),
}

impl IndexStatusError {
    /// The error in words.
    pub open spec fn text(&self) -> Seq<char> {
        match *self {
            IndexStatusError::InvalidRoot { path, source } => "failed to resolve workspace root '"@
                + path@ + "': "@ + source@,
            IndexStatusError::Io { path, source } => "failed to access "@ + path@ + ": "@ + source@,
            IndexStatusError::Sqlite(message) => message@,
            IndexStatusError::Git(message) => "failed to query git commit: "@ + message@,
            IndexStatusError::Join(message) => "blocking task panicked: "@ + message@,
        }
    }

    /// The error in words.
    pub fn message(&self) -> (r: String)
        ensures
            r@ == self.text(),
    {
        match self {
            IndexStatusError::InvalidRoot { path, source } => {
                let mut out = "failed to resolve workspace root '".to_owned();
                out.append(path.as_str());
                out.append("': ");
                out.append(source.as_str());
                out
            },
            IndexStatusError::Io { path, source } => {
                let mut out = "failed to access ".to_owned();
                out.append(path.as_str());
                out.append(": ");
                out.append(source.as_str());
                out
            },
            IndexStatusError::Sqlite(message) => message.clone(),
            IndexStatusError::Git(message) => {
                let mut out = "failed to query git commit: ".to_owned();
                out.append(message.as_str());
                out
            },
            IndexStatusError::Join(message) => {
                let mut out = "blocking task panicked: ".to_owned();
                out.append(message.as_str());
                out
            },
        }
    }
}

/// The database of a workspace.
pub fn resolve_database_path(root: &str, database_name: Option<&str>) -> (r: String)
    ensures
        r@ == path_in(
            root@,
            match database_name {
                Some(name) => name@,
                None => DEFAULT_DB_FILENAME@,
            },
        ),
{
    match database_name {
        Some(name) => join_path(root, name),
        None => join_path(root, DEFAULT_DB_FILENAME),
    }
}

/// How many earlier runs are listed.
pub fn history_limit(requested: Option<u32>) -> (r: usize)
    ensures
        r == match requested {
            Some(n) => n as usize,
            None => DEFAULT_HISTORY_LIMIT as usize,
        },
{
    match requested {
        Some(n) => n as usize,
        None => DEFAULT_HISTORY_LIMIT as usize,
    }
}

/// A number of rows that a database counted.
pub fn row_count(count: i64) -> (r: u64)
    ensures
        r == (if count < 0 {
            0
        } else {
            count as u64
        }),
{
    if count < 0 {
        0
    } else {
        count as u64
    }
}

/// The index is stale: it was built at another commit than the one that the workspace
/// stands at.
pub open spec fn commits_differ(current: Option<Seq<char>>, stored: Option<Seq<char>>) -> bool {
    match (current, stored) {
        (Some(a), Some(b)) => a != b,
        _ => false,
    }
}

/// Whether the index was built at another commit than the one that the workspace stands
/// at.
pub fn is_stale(current: &Option<String>, stored: &Option<String>) -> (r: bool)
    ensures
        r == commits_differ(text_of(*current), text_of(*stored)),
{
    match (current, stored) {
        (Some(a), Some(b)) => !same_text(a.as_str(), b.as_str()),
        _ => false,
    }
}

/// The index of a workspace at the commit that it was built at is not stale, and an index
/// whose commit is unknown is never called stale.
pub proof fn law_same_commit_fresh(commit: Option<Seq<char>>)
    ensures
        !commits_differ(commit, commit),
        !commits_differ(commit, None),
        !commits_differ(None, commit),
{
}

/// A run as it is listed.
pub fn describe_ingestion(
    id: String,
    root: String,
    started_at: i64,
    finished_at: i64,
    file_count: i64,
    skipped_count: i64,
    deleted_count: i64,
) -> (r: IndexStatusIngestion)
    ensures
        r == (IndexStatusIngestion {
            id,
            root,
            started_at,
            finished_at,
            duration_ms: finished_at.wrapping_sub(started_at),
            file_count,
            skipped_count,
            deleted_count,
        }),
{
    let duration_ms: i64 = finished_at.wrapping_sub(started_at);
    IndexStatusIngestion {
        id,
        root,
        started_at,
        finished_at,
        duration_ms,
        file_count,
        skipped_count,
        deleted_count,
    }
}

/// The state of an index that does not exist.
pub fn missing_index(database_path: String, current_commit_sha: Option<String>) -> (r:
    IndexStatusResponse)
    ensures
        r.database_path == database_path,
        !r.database_exists,
        r.database_size_bytes is None,
        r.total_files == 0,
        r.total_chunks == 0,
        r.embedding_models@.len() == 0,
        r.total_graph_nodes == 0,
        r.total_graph_edges == 0,
        r.latest_ingestion is None,
        r.recent_ingestions@.len() == 0,
        r.commit_sha is None,
        r.indexed_at is None,
        r.current_commit_sha == current_commit_sha,
        r.is_stale,
{
    IndexStatusResponse {
        database_path,
        database_exists: false,
        database_size_bytes: None,
        total_files: 0,
        total_chunks: 0,
        embedding_models: Vec::new(),
        total_graph_nodes: 0,
        total_graph_edges: 0,
        latest_ingestion: None,
        recent_ingestions: Vec::new(),
        commit_sha: None,
        indexed_at: None,
        current_commit_sha,
        is_stale: true,
    }
}

/// What was read of an index.
#[derive(Debug)]
pub struct IndexFacts {
    pub database_path: String,
    pub database_size_bytes: u64,
    pub total_files: i64,
    pub total_chunks: i64,
    pub total_graph_nodes: i64,
    pub total_graph_edges: i64,
    pub embedding_models: Vec<String>,
    pub ingestions: Vec<IndexStatusIngestion>,
    pub commit_sha: Option<String>,
    pub indexed_at: Option<String>,
    pub current_commit_sha: Option<String>,
}

/// A run is listed as another one.
pub open spec fn same_ingestion(a: IndexStatusIngestion, b: IndexStatusIngestion) -> bool {
    &&& a.id@ == b.id@
    &&& a.root@ == b.root@
    &&& a.started_at == b.started_at
    &&& a.finished_at == b.finished_at
    &&& a.duration_ms == b.duration_ms
    &&& a.file_count == b.file_count
    &&& a.skipped_count == b.skipped_count
    &&& a.deleted_count == b.deleted_count
}

fn copy_ingestion(i: &IndexStatusIngestion) -> (r: IndexStatusIngestion)
    ensures
        same_ingestion(r, *i),
{
    IndexStatusIngestion {
        id: i.id.clone(),
        root: i.root.clone(),
        started_at: i.started_at,
        finished_at: i.finished_at,
        duration_ms: i.duration_ms,
        file_count: i.file_count,
        skipped_count: i.skipped_count,
        deleted_count: i.deleted_count,
    }
}

/// A number of rows, which is never negative.
pub open spec fn counted(n: i64) -> u64 {
    if n < 0 {
        0
    } else {
        n as u64
    }
}

/// The state of an index, from what was read of it.
pub fn describe_index(facts: IndexFacts) -> (r: IndexStatusResponse)
    ensures
        r.database_path == facts.database_path,
        r.database_exists,
        r.database_size_bytes == Some(facts.database_size_bytes),
        r.total_files == counted(facts.total_files),
        r.total_chunks == counted(facts.total_chunks),
        texts(r.embedding_models@) == filled(texts(facts.embedding_models@)),
        r.total_graph_nodes == counted(facts.total_graph_nodes),
        r.total_graph_edges == counted(facts.total_graph_edges),
        match r.latest_ingestion {
            Some(latest) => facts.ingestions@.len() > 0 && same_ingestion(
                latest,
                facts.ingestions@[0],
            ),
            None => facts.ingestions@.len() == 0,
        },
        r.recent_ingestions == facts.ingestions,
        r.commit_sha == facts.commit_sha,
        wide(r.indexed_at) == match facts.indexed_at {
            Some(text) => signed_of(text@),
            None => None,
        },
        r.current_commit_sha == facts.current_commit_sha,
        r.is_stale == commits_differ(text_of(facts.current_commit_sha), text_of(facts.commit_sha)),
{
    let latest_ingestion = if facts.ingestions.len() > 0 {
        Some(copy_ingestion(&facts.ingestions[0]))
    } else {
        None
    };
    let stale = is_stale(&facts.current_commit_sha, &facts.commit_sha);
    let indexed_at = match &facts.indexed_at {
        Some(text) => parse_signed(text.as_str()),
        None => None,
    };
    let embedding_models = keep_filled(&facts.embedding_models);
    IndexStatusResponse {
        database_path: facts.database_path,
        database_exists: true,
        database_size_bytes: Some(facts.database_size_bytes),
        total_files: row_count(facts.total_files),
        total_chunks: row_count(facts.total_chunks),
        embedding_models,
        total_graph_nodes: row_count(facts.total_graph_nodes),
        total_graph_edges: row_count(facts.total_graph_edges),
        latest_ingestion,
        recent_ingestions: facts.ingestions,
        commit_sha: facts.commit_sha,
        indexed_at,
        current_commit_sha: facts.current_commit_sha,
        is_stale: stale,
    }
}

/// An index is stale exactly where both commits are known and are not the same: where one
/// of them is not known, nothing can be said against the index.
pub proof fn law_stale(a: Seq<char>, b: Seq<char>)
    ensures
        commits_differ(Some(a), Some(b)) <==> a != b,
        !commits_differ(None, Some(b)),
        !commits_differ(Some(a), None),
        !commits_differ(None, None),
{
}

/// A count of rows is as it was counted, and never negative.
pub proof fn law_counted(n: i64)
    ensures
        n >= 0 ==> counted(n) == n,
        n < 0 ==> counted(n) == 0,
{
}

/// As many runs are listed as asked for, else the usual number.
pub proof fn law_history_limit(requested: u32, asked: usize, usual: usize)
    requires
        call_ensures(history_limit, (Some(requested),), asked),
        call_ensures(history_limit, (None::<u32>,), usual),
    ensures
        asked == requested,
        usual == 5,
{
}

/// A negative count counts for none, and another one for itself.
pub proof fn law_row_count(count: i64, rows: u64)
    requires
        call_ensures(row_count, (count,), rows),
    ensures
        count >= 0 ==> rows == count,
        count < 0 ==> rows == 0,
{
}

/// A run took as long as lies between its start and its end.
pub proof fn law_run_duration(
    id: String,
    root: String,
    started_at: i64,
    finished_at: i64,
    counts: (i64, i64, i64),
    run: IndexStatusIngestion,
)
    requires
        call_ensures(
            describe_ingestion,
            (id, root, started_at, finished_at, counts.0, counts.1, counts.2),
            run,
        ),
        i64::MIN <= finished_at - started_at <= i64::MAX,
    ensures
        run.duration_ms == finished_at - started_at,
        run.started_at == started_at && run.finished_at == finished_at,
        run.id == id && run.root == root,
{
}

/// An index that does not exist is stale and holds nothing.
pub proof fn law_missing_index(
    database_path: String,
    commit: Option<String>,
    state: IndexStatusResponse,
)
    requires
        call_ensures(missing_index, (database_path, commit), state),
    ensures
        state.is_stale && !state.database_exists,
        state.total_files == 0 && state.total_chunks == 0,
        state.current_commit_sha == commit && state.commit_sha is None,
{
}

} // verus!
