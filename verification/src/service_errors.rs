//! What can go wrong in a tool, in words, and how a tool reports it.

use vstd::prelude::*;
use crate::globs::GlobProblem;
use crate::git_timeline::RepositoryTimelineError;
use crate::index_status::IndexStatusError;
use crate::search::ModelChoiceError;

verus! {

/// Whose fault an error of a tool is.
#[derive(Debug, Clone, Copy, PartialEq, Eq, Structural)]
pub enum ErrorKind {
    /// The request cannot be met as it is.
    InvalidParams,
    /// Something failed inside.
    InternalError,
}

/// The error that a tool reports.
#[derive(Debug)]
pub struct ToolError {
    pub kind: ErrorKind,
    pub message: String,
}

/// The error is of a kind and says a text.
pub open spec fn is_error(e: ToolError, kind: ErrorKind, message: Seq<char>) -> bool {
    e.kind == kind && e.message@ == message
}

/// An error whose text is in two pieces.
fn error_of(kind: ErrorKind, lead: &str, detail: &str) -> (r: ToolError)
    ensures
        is_error(r, kind, lead@ + detail@),
{
    let mut message = lead.to_owned();
    message.append(detail);
    ToolError { kind, message }
}

/// An error whose text names a thing between two pieces, and then says more.
fn error_about(kind: ErrorKind, lead: &str, thing: &str, middle: &str, detail: &str) -> (r:
    ToolError)
    ensures
        is_error(r, kind, lead@ + thing@ + middle@ + detail@),
{
    let mut message = lead.to_owned();
    message.append(thing);
    message.append(middle);
    message.append(detail);
    ToolError { kind, message }
}

/// A text that names a thing between two pieces, and then says more.
fn text_about(lead: &str, thing: &str, middle: &str, detail: &str) -> (r: String)
    ensures
        r@ == lead@ + thing@ + middle@ + detail@,
{
    let mut out = lead.to_owned();
    out.append(thing);
    out.append(middle);
    out.append(detail);
    out
}

/// A text in two pieces.
fn text_in_two(lead: &str, detail: &str) -> (r: String)
    ensures
        r@ == lead@ + detail@,
{
    let mut out = lead.to_owned();
    out.append(detail);
    out
}

// ---------------------------------------------------------------------------
// Ingestion
// ---------------------------------------------------------------------------

/// Why files cannot be ingested. What went wrong outside is given in words.
#[derive(Debug)]
pub enum IngestError {
    InvalidRoot { path: String, source: String },
    GlobPattern { pattern: String, source: String },
    GlobSet(String),
    Sqlite(String),
    Embedding(String),
    Join(String),
}

impl IngestError {
    /// The error in words.
    pub open spec fn text(&self) -> Seq<char> {
        match *self {
            IngestError::InvalidRoot { path, source } => "failed to resolve workspace root '"@
                + path@ + "': "@ + source@,
            IngestError::GlobPattern { pattern, source } => "invalid glob pattern '"@ + pattern@
                + "': "@ + source@,
            IngestError::GlobSet(message) => "failed to compile glob set: "@ + message@,
            IngestError::Sqlite(message) => "SQLite error: "@ + message@,
            IngestError::Embedding(message) => "embedding error: "@ + message@,
            IngestError::Join(message) => "blocking task panicked: "@ + message@,
        }
    }

    /// The error in words.
    pub fn message(&self) -> (r: String)
        ensures
            r@ == self.text(),
    {
        match self {
            IngestError::InvalidRoot { path, source } => text_about(
                "failed to resolve workspace root '",
                path.as_str(),
                "': ",
                source.as_str(),
            ),
            IngestError::GlobPattern { pattern, source } => text_about(
                "invalid glob pattern '",
                pattern.as_str(),
                "': ",
                source.as_str(),
            ),
            IngestError::GlobSet(message) => text_in_two(
                "failed to compile glob set: ",
                message.as_str(),
            ),
            IngestError::Sqlite(message) => text_in_two("SQLite error: ", message.as_str()),
            IngestError::Embedding(message) => text_in_two("embedding error: ", message.as_str()),
            IngestError::Join(message) => text_in_two(
                "blocking task panicked: ",
                message.as_str(),
            ),
        }
    }
}

/// A problem with patterns as a reason why files cannot be ingested.
pub fn ingest_glob_error(problem: GlobProblem) -> (r: IngestError)
    ensures
        match problem {
            GlobProblem::Pattern { pattern, message } => r == (IngestError::GlobPattern {
                pattern,
                source: message,
            }),
            GlobProblem::Whole { message } => r == IngestError::GlobSet(message),
        },
{
    match problem {
        GlobProblem::Pattern { pattern, message } => IngestError::GlobPattern {
            pattern,
            source: message,
        },
        GlobProblem::Whole { message } => IngestError::GlobSet(message),
    }
}

/// How a tool reports that files cannot be ingested.
pub fn convert_ingest_error(error: IngestError) -> (r: ToolError)
    ensures
        match error {
            IngestError::InvalidRoot { path, source } => is_error(
                r,
                ErrorKind::InvalidParams,
                "Unable to resolve root '"@ + path@ + "': "@ + source@,
            ),
            IngestError::GlobPattern { pattern, source } => is_error(
                r,
                ErrorKind::InvalidParams,
                "Invalid glob pattern '"@ + pattern@ + "': "@ + source@,
            ),
            IngestError::GlobSet(message) => is_error(
                r,
                ErrorKind::InvalidParams,
                "Failed to compile glob patterns: "@ + message@,
            ),
            IngestError::Sqlite(message) => is_error(
                r,
                ErrorKind::InternalError,
                "SQLite error: "@ + message@,
            ),
            IngestError::Embedding(message) => is_error(
                r,
                ErrorKind::InternalError,
                "Embedding failed: "@ + message@,
            ),
            IngestError::Join(message) => is_error(
                r,
                ErrorKind::InternalError,
                "Background task failed: "@ + message@,
            ),
        },
{
    match error {
        IngestError::InvalidRoot { path, source } => error_about(
            ErrorKind::InvalidParams,
            "Unable to resolve root '",
            path.as_str(),
            "': ",
            source.as_str(),
        ),
        IngestError::GlobPattern { pattern, source } => error_about(
            ErrorKind::InvalidParams,
            "Invalid glob pattern '",
            pattern.as_str(),
            "': ",
            source.as_str(),
        ),
        IngestError::GlobSet(message) => error_of(
            ErrorKind::InvalidParams,
            "Failed to compile glob patterns: ",
            message.as_str(),
        ),
        IngestError::Sqlite(message) => error_of(
            ErrorKind::InternalError,
            "SQLite error: ",
            message.as_str(),
        ),
        IngestError::Embedding(message) => error_of(
            ErrorKind::InternalError,
            "Embedding failed: ",
            message.as_str(),
        ),
        IngestError::Join(message) => error_of(
            ErrorKind::InternalError,
            "Background task failed: ",
            message.as_str(),
        ),
    }
}

// ---------------------------------------------------------------------------
// Searches
// ---------------------------------------------------------------------------

/// Why a search has no answer. What went wrong outside is given in words.
#[derive(Debug)]
pub enum SemanticSearchError {
    InvalidRoot { path: String, source: String },
    Sqlite(String),
    Embedding(String),
    Join(String),
    MultipleModels { available: String },
    ModelNotFound { requested: String, available: String },
}

impl SemanticSearchError {
    /// The error in words.
    pub open spec fn text(&self) -> Seq<char> {
        match *self {
            SemanticSearchError::InvalidRoot { path, source } =>
                "failed to resolve workspace root '"@ + path@ + "': "@ + source@,
            SemanticSearchError::Sqlite(message) => "SQLite error: "@ + message@,
            SemanticSearchError::Embedding(message) => "embedding error: "@ + message@,
            SemanticSearchError::Join(message) => "blocking task panicked: "@ + message@,
            SemanticSearchError::MultipleModels { available } =>
                "multiple embedding models found ("@ + available@
                    + "). specify the desired model."@,
            SemanticSearchError::ModelNotFound { requested, available } => "embedding model '"@
                + requested@ + "' not found. available models: "@ + available@,
        }
    }

    /// The error in words.
    pub fn message(&self) -> (r: String)
        ensures
            r@ == self.text(),
    {
        match self {
            SemanticSearchError::InvalidRoot { path, source } => text_about(
                "failed to resolve workspace root '",
                path.as_str(),
                "': ",
                source.as_str(),
            ),
            SemanticSearchError::Sqlite(message) => text_in_two(
                "SQLite error: ",
                message.as_str(),
            ),
            SemanticSearchError::Embedding(message) => text_in_two(
                "embedding error: ",
                message.as_str(),
            ),
            SemanticSearchError::Join(message) => text_in_two(
                "blocking task panicked: ",
                message.as_str(),
            ),
            SemanticSearchError::MultipleModels { available } => {
                let mut out = "multiple embedding models found (".to_owned();
                out.append(available.as_str());
                out.append("). specify the desired model.");
                out
            },
            SemanticSearchError::ModelNotFound { requested, available } => text_about(
                "embedding model '",
                requested.as_str(),
                "' not found. available models: ",
                available.as_str(),
            ),
        }
    }
}

/// A model that cannot be chosen as a reason why a search has no answer.
pub fn search_model_error(error: ModelChoiceError) -> (r: SemanticSearchError)
    ensures
        match error {
            ModelChoiceError::ModelNotFound { requested, available } => r == (
            SemanticSearchError::ModelNotFound { requested, available }),
            ModelChoiceError::MultipleModels { available } => r == (
            SemanticSearchError::MultipleModels { available }),
        },
{
    match error {
        ModelChoiceError::ModelNotFound { requested, available } =>
            SemanticSearchError::ModelNotFound { requested, available },
        ModelChoiceError::MultipleModels { available } => SemanticSearchError::MultipleModels {
            available,
        },
    }
}

/// How a tool reports that a search has no answer.
pub fn convert_semantic_search_error(error: SemanticSearchError) -> (r: ToolError)
    ensures
        match error {
            SemanticSearchError::InvalidRoot { path, source } => is_error(
                r,
                ErrorKind::InvalidParams,
                "Unable to resolve root '"@ + path@ + "': "@ + source@,
            ),
            SemanticSearchError::Sqlite(message) => is_error(
                r,
                ErrorKind::InternalError,
                "SQLite error: "@ + message@,
            ),
            SemanticSearchError::Embedding(message) => is_error(
                r,
                ErrorKind::InternalError,
                "Embedding failed: "@ + message@,
            ),
            SemanticSearchError::Join(message) => is_error(
                r,
                ErrorKind::InternalError,
                "Background task failed: "@ + message@,
            ),
            SemanticSearchError::MultipleModels { available } => is_error(
                r,
                ErrorKind::InvalidParams,
                "Multiple embedding models found ("@ + available@
                    + "). Specify the desired model."@,
            ),
            SemanticSearchError::ModelNotFound { requested, available } => is_error(
                r,
                ErrorKind::InvalidParams,
                "No chunks indexed with embedding model '"@ + requested@
                    + "'. Available models: "@ + available@,
            ),
        },
{
    match error {
        SemanticSearchError::InvalidRoot { path, source } => error_about(
            ErrorKind::InvalidParams,
            "Unable to resolve root '",
            path.as_str(),
            "': ",
            source.as_str(),
        ),
        SemanticSearchError::Sqlite(message) => error_of(
            ErrorKind::InternalError,
            "SQLite error: ",
            message.as_str(),
        ),
        SemanticSearchError::Embedding(message) => error_of(
            ErrorKind::InternalError,
            "Embedding failed: ",
            message.as_str(),
        ),
        SemanticSearchError::Join(message) => error_of(
            ErrorKind::InternalError,
            "Background task failed: ",
            message.as_str(),
        ),
        SemanticSearchError::MultipleModels { available } => {
            let mut message = "Multiple embedding models found (".to_owned();
            message.append(available.as_str());
            message.append("). Specify the desired model.");
            ToolError { kind: ErrorKind::InvalidParams, message }
        },
        SemanticSearchError::ModelNotFound { requested, available } => error_about(
            ErrorKind::InvalidParams,
            "No chunks indexed with embedding model '",
            requested.as_str(),
            "'. Available models: ",
            available.as_str(),
        ),
    }
}

// ---------------------------------------------------------------------------
// Bundles
// ---------------------------------------------------------------------------

/// Why there is no bundle. What went wrong outside is given in words.
#[derive(Debug)]
pub enum ContextBundleError {
    InvalidRoot { path: String, source: String },
    Sqlite(String),
    Io { path: String, source: String },
    Join(String),
}

impl ContextBundleError {
    /// The error in words.
    pub open spec fn text(&self) -> Seq<char> {
        match *self {
            ContextBundleError::InvalidRoot { path, source } =>
                "failed to resolve workspace root '"@ + path@ + "': "@ + source@,
            ContextBundleError::Sqlite(message) => "SQLite error: "@ + message@,
            ContextBundleError::Io { path, source } => "I/O error for "@ + path@ + ": "@ + source@,
            ContextBundleError::Join(message) => "blocking task panicked: "@ + message@,
        }
    }

    /// The error in words.
    pub fn message(&self) -> (r: String)
        ensures
            r@ == self.text(),
    {
        match self {
            ContextBundleError::InvalidRoot { path, source } => text_about(
                "failed to resolve workspace root '",
                path.as_str(),
                "': ",
                source.as_str(),
            ),
            ContextBundleError::Sqlite(message) => text_in_two("SQLite error: ", message.as_str()),
            ContextBundleError::Io { path, source } => text_about(
                "I/O error for ",
                path.as_str(),
                ": ",
                source.as_str(),
            ),
            ContextBundleError::Join(message) => text_in_two(
                "blocking task panicked: ",
                message.as_str(),
            ),
        }
    }
}

// ---------------------------------------------------------------------------
// State of the index, and timelines
// ---------------------------------------------------------------------------

/// How a tool reports that the state of an index cannot be told.
pub fn convert_index_status_error(error: IndexStatusError) -> (r: ToolError)
    ensures
        match error {
            IndexStatusError::InvalidRoot { path, source } => is_error(
                r,
                ErrorKind::InvalidParams,
                "Unable to resolve root '"@ + path@ + "': "@ + source@,
            ),
            IndexStatusError::Io { path, source } => is_error(
                r,
                ErrorKind::InternalError,
                "I/O failure accessing '"@ + path@ + "': "@ + source@,
            ),
            IndexStatusError::Sqlite(message) => is_error(
                r,
                ErrorKind::InternalError,
                "SQLite error: "@ + message@,
            ),
            IndexStatusError::Git(message) => is_error(
                r,
                ErrorKind::InternalError,
                "Git command failed: "@ + message@,
            ),
            IndexStatusError::Join(message) => is_error(
                r,
                ErrorKind::InternalError,
                "Background task failed: "@ + message@,
            ),
        },
{
    match error {
        IndexStatusError::InvalidRoot { path, source } => error_about(
            ErrorKind::InvalidParams,
            "Unable to resolve root '",
            path.as_str(),
            "': ",
            source.as_str(),
        ),
        IndexStatusError::Io { path, source } => error_about(
            ErrorKind::InternalError,
            "I/O failure accessing '",
            path.as_str(),
            "': ",
            source.as_str(),
        ),
        IndexStatusError::Sqlite(message) => error_of(
            ErrorKind::InternalError,
            "SQLite error: ",
            message.as_str(),
        ),
        IndexStatusError::Git(message) => error_of(
            ErrorKind::InternalError,
            "Git command failed: ",
            message.as_str(),
        ),
        IndexStatusError::Join(message) => error_of(
            ErrorKind::InternalError,
            "Background task failed: ",
            message.as_str(),
        ),
    }
}

/// How a tool reports that there is no timeline.
pub fn convert_repository_timeline_error(error: RepositoryTimelineError) -> (r: ToolError)
    ensures
        match error {
            RepositoryTimelineError::InvalidRoot { path, source } => is_error(
                r,
                ErrorKind::InvalidParams,
                "Unable to resolve root '"@ + path@ + "': "@ + source@,
            ),
            RepositoryTimelineError::NotAGitRepository { path, message } => is_error(
                r,
                ErrorKind::InvalidParams,
                path@ + " is not a git repository: "@ + message@,
            ),
            RepositoryTimelineError::Git(message) => is_error(
                r,
                ErrorKind::InternalError,
                "Git command failed: "@ + message@,
            ),
            RepositoryTimelineError::Join(message) => is_error(
                r,
                ErrorKind::InternalError,
                "Background task failed: "@ + message@,
            ),
            RepositoryTimelineError::Database { path, source } => is_error(
                r,
                ErrorKind::InternalError,
                "SQLite error at "@ + path@ + ": "@ + source@,
            ),
            RepositoryTimelineError::Serialization(message) => is_error(
                r,
                ErrorKind::InternalError,
                "Failed to serialize repository timeline data: "@ + message@,
            ),
            RepositoryTimelineError::EntryNotFound { commit_sha, path } => is_error(
                r,
                ErrorKind::InvalidParams,
                "Commit "@ + commit_sha@ + " not found in timeline cache at "@ + path@,
            ),
        },
{
    match error {
        RepositoryTimelineError::InvalidRoot { path, source } => error_about(
            ErrorKind::InvalidParams,
            "Unable to resolve root '",
            path.as_str(),
            "': ",
            source.as_str(),
        ),
        RepositoryTimelineError::NotAGitRepository { path, message } => {
            let mut text = path;
            text.append(" is not a git repository: ");
            text.append(message.as_str());
            ToolError { kind: ErrorKind::InvalidParams, message: text }
        },
        RepositoryTimelineError::Git(message) => error_of(
            ErrorKind::InternalError,
            "Git command failed: ",
            message.as_str(),
        ),
        RepositoryTimelineError::Join(message) => error_of(
            ErrorKind::InternalError,
            "Background task failed: ",
            message.as_str(),
        ),
        RepositoryTimelineError::Database { path, source } => error_about(
            ErrorKind::InternalError,
            "SQLite error at ",
            path.as_str(),
            ": ",
            source.as_str(),
        ),
        RepositoryTimelineError::Serialization(message) => error_of(
            ErrorKind::InternalError,
            "Failed to serialize repository timeline data: ",
            message.as_str(),
        ),
        RepositoryTimelineError::EntryNotFound { commit_sha, path } => error_about(
            ErrorKind::InvalidParams,
            "Commit ",
            commit_sha.as_str(),
            " not found in timeline cache at ",
            path.as_str(),
        ),
    }
}

/// A caller is told that the request cannot be met where the root, a pattern, or the model is
/// at fault, and that something failed inside in every other case.
pub proof fn law_faults_told_apart(
    ingest: IngestError,
    of_ingest: ToolError,
    search: SemanticSearchError,
    of_search: ToolError,
    status: IndexStatusError,
    of_status: ToolError,
    timeline: RepositoryTimelineError,
    of_timeline: ToolError,
)
    requires
        call_ensures(convert_ingest_error, (ingest,), of_ingest),
        call_ensures(convert_semantic_search_error, (search,), of_search),
        call_ensures(convert_index_status_error, (status,), of_status),
        call_ensures(convert_repository_timeline_error, (timeline,), of_timeline),
    ensures
        of_ingest.kind is InvalidParams <==> ingest is InvalidRoot || ingest is GlobPattern
            || ingest is GlobSet,
        of_search.kind is InvalidParams <==> search is InvalidRoot || search is MultipleModels
            || search is ModelNotFound,
        of_status.kind is InvalidParams <==> status is InvalidRoot,
        of_timeline.kind is InvalidParams <==> timeline is InvalidRoot || timeline is
            NotAGitRepository || timeline is EntryNotFound,
{
}

/// A root that cannot be resolved is named, with the reason, whatever was asked for.
pub proof fn law_root_named(
    path: String,
    source: String,
    of_ingest: ToolError,
    of_search: ToolError,
    of_status: ToolError,
    of_timeline: ToolError,
)
    requires
        call_ensures(
            convert_ingest_error,
            (IngestError::InvalidRoot { path, source },),
            of_ingest,
        ),
        call_ensures(
            convert_semantic_search_error,
            (SemanticSearchError::InvalidRoot { path, source },),
            of_search,
        ),
        call_ensures(
            convert_index_status_error,
            (IndexStatusError::InvalidRoot { path, source },),
            of_status,
        ),
        call_ensures(
            convert_repository_timeline_error,
            (RepositoryTimelineError::InvalidRoot { path, source },),
            of_timeline,
        ),
    ensures
        of_ingest.message@ == "Unable to resolve root '"@ + path@ + "': "@ + source@,
        of_search.message@ == of_ingest.message@,
        of_status.message@ == of_ingest.message@,
        of_timeline.message@ == of_ingest.message@,
{
}

} // verus!
