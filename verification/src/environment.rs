//! Where embedding models are cached.

use vstd::prelude::*;
use crate::bundle_graph::text_of;
use crate::git_timeline::{trim_option, trimmed_option};
use crate::paths::{join_path, path_in};
use crate::text::same_text;

verus! {

/// How bad a finding is.
#[derive(Debug, Clone, Copy, PartialEq, Eq, Structural)]
pub enum DiagnosticLevel {
    Warn,
    Error,
}

/// Where the cache directory came from.
#[derive(Debug, Clone, Copy, PartialEq, Eq, Structural)]
pub enum ModelCacheSource {
    FastembedCacheDir,
    IndexMcpModelCacheDir,
    Default,
    Tmp,
}

/// The name of a source.
pub open spec fn source_name(source: ModelCacheSource) -> Seq<char> {
    match source {
        ModelCacheSource::FastembedCacheDir => "FASTEMBED_CACHE_DIR"@,
        ModelCacheSource::IndexMcpModelCacheDir => "INDEX_MCP_MODEL_CACHE_DIR"@,
        ModelCacheSource::Default => "default"@,
        ModelCacheSource::Tmp => "tmp"@,
    }
}

impl ModelCacheSource {
    /// The name of the source.
    pub fn as_str(&self) -> (r: &'static str)
        ensures
            r@ == source_name(*self),
    {
        match self {
            ModelCacheSource::FastembedCacheDir => "FASTEMBED_CACHE_DIR",
            ModelCacheSource::IndexMcpModelCacheDir => "INDEX_MCP_MODEL_CACHE_DIR",
            ModelCacheSource::Default => "default",
            ModelCacheSource::Tmp => "tmp",
        }
    }
}

/// What a finding is about.
#[derive(Debug, Clone)]
pub struct DiagnosticContext {
    pub source: ModelCacheSource,
    pub path: String,
    pub error: Option<String>,
    pub code: Option<String>,
}

/// Something found while the cache directory was prepared.
#[derive(Debug, Clone)]
pub struct EnvironmentDiagnostic {
    pub level: DiagnosticLevel,
    pub code: String,
    pub message: String,
    pub context: Option<DiagnosticContext>,
}

/// Where embedding models are cached.
#[derive(Debug, Clone)]
pub struct ModelCacheInfo {
    pub directory: Option<String>,
    pub source: Option<ModelCacheSource>,
    pub diagnostics: Vec<EnvironmentDiagnostic>,
}

/// A directory that may serve as the cache.
#[derive(Debug)]
pub struct DirectoryCandidate {
    pub path: String,
    pub source: ModelCacheSource,
}

/// How the preparation of a directory ended. Errors are given in words and by their kind.
#[derive(Debug)]
pub enum ProbeOutcome {
    Ready,
    NotDirectory,
    StatFailed { error: String, kind: String },
    CreationFailed { error: String, kind: String },
    Unwritable { error: String, kind: String },
}

// ---------------------------------------------------------------------------
// Candidates
// ---------------------------------------------------------------------------

/// What is known of the surroundings of the process.
#[derive(Debug)]
pub struct Surroundings {
    pub fastembed_dir: Option<String>,
    pub model_dir: Option<String>,
    pub home: Option<String>,
    pub temp: String,
    pub working_dir: Option<String>,
}

/// A path, taken from inside the working directory where that is known.
pub open spec fn absolute_of(path: Seq<char>, working_dir: Option<Seq<char>>) -> Seq<char> {
    match working_dir {
        Some(dir) => path_in(dir, path),
        None => path,
    }
}

fn to_absolute_path(path: &str, working_dir: &Option<String>) -> (r: String)
    ensures
        r@ == absolute_of(path@, text_of(*working_dir)),
{
    match working_dir {
        Some(dir) => join_path(dir.as_str(), path),
        None => path.to_owned(),
    }
}

/// The candidate that a setting names.
pub open spec fn named_candidate(
    setting: Option<Seq<char>>,
    working_dir: Option<Seq<char>>,
    source: ModelCacheSource,
) -> Seq<(Seq<char>, ModelCacheSource)> {
    match trimmed_option(setting) {
        Some(path) => seq![(absolute_of(path, working_dir), source)],
        None => Seq::empty(),
    }
}

/// The candidate below the home directory.
pub open spec fn home_candidate(home: Option<Seq<char>>) -> Seq<(Seq<char>, ModelCacheSource)> {
    match home {
        Some(dir) => seq![
            (path_in(path_in(dir, ".index-mcp"@), "models"@), ModelCacheSource::Default),
        ],
        None => Seq::empty(),
    }
}

/// The directories that may serve as the cache, in the order in which they are tried.
pub open spec fn candidates_of(s: Surroundings) -> Seq<(Seq<char>, ModelCacheSource)> {
    named_candidate(
        text_of(s.fastembed_dir),
        text_of(s.working_dir),
        ModelCacheSource::FastembedCacheDir,
    ) + named_candidate(
        text_of(s.model_dir),
        text_of(s.working_dir),
        ModelCacheSource::IndexMcpModelCacheDir,
    ) + home_candidate(text_of(s.home)) + seq![
        (path_in(path_in(s.temp@, "index-mcp"@), "models"@), ModelCacheSource::Tmp),
    ]
}

/// The candidates by their paths and sources.
pub open spec fn candidate_views(s: Seq<DirectoryCandidate>) -> Seq<
    (Seq<char>, ModelCacheSource),
> {
    Seq::new(s.len(), |i: int| (s[i].path@, s[i].source))
}

fn push_candidate(out: &mut Vec<DirectoryCandidate>, path: String, source: ModelCacheSource)
    ensures
        candidate_views(final(out)@) == candidate_views(old(out)@) + seq![(path@, source)],
{
    let ghost before = out@;
    out.push(DirectoryCandidate { path, source });
    assert(candidate_views(out@) =~= candidate_views(before) + seq![(path@, source)]);
}

fn push_named(
    out: &mut Vec<DirectoryCandidate>,
    setting: &Option<String>,
    working_dir: &Option<String>,
    source: ModelCacheSource,
)
    ensures
        candidate_views(final(out)@) == candidate_views(old(out)@) + named_candidate(
            text_of(*setting),
            text_of(*working_dir),
            source,
        ),
{
    match trim_option(setting) {
        Some(path) => push_candidate(out, to_absolute_path(path.as_str(), working_dir), source),
        None => {
            assert(candidate_views(out@) =~= candidate_views(old(out)@) + named_candidate(
                text_of(*setting),
                text_of(*working_dir),
                source,
            ));
        },
    }
}

/// The directories that may serve as the cache, in the order in which they are tried.
pub fn cache_candidates(s: &Surroundings) -> (r: Vec<DirectoryCandidate>)
    ensures
        candidate_views(r@) == candidates_of(*s),
{
    let mut out: Vec<DirectoryCandidate> = Vec::new();
    let ghost empty = candidate_views(out@);
    push_named(
        &mut out,
        &s.fastembed_dir,
        &s.working_dir,
        ModelCacheSource::FastembedCacheDir,
    );
    let ghost first = named_candidate(
        text_of(s.fastembed_dir),
        text_of(s.working_dir),
        ModelCacheSource::FastembedCacheDir,
    );
    assert(empty + first =~= first);
    push_named(
        &mut out,
        &s.model_dir,
        &s.working_dir,
        ModelCacheSource::IndexMcpModelCacheDir,
    );
    let ghost second = candidate_views(out@);
    match &s.home {
        Some(dir) => {
            let base = join_path(dir.as_str(), ".index-mcp");
            push_candidate(&mut out, join_path(base.as_str(), "models"), ModelCacheSource::Default);
        },
        None => {
            assert(second =~= second + home_candidate(None));
        },
    }
    let base = join_path(s.temp.as_str(), "index-mcp");
    push_candidate(&mut out, join_path(base.as_str(), "models"), ModelCacheSource::Tmp);
    out
}

/// There is always a directory to try.
pub proof fn law_some_candidate(s: Surroundings)
    ensures
        candidates_of(s).len() > 0,
        candidates_of(s).last().1 == ModelCacheSource::Tmp,
{
}

// ---------------------------------------------------------------------------
// Findings
// ---------------------------------------------------------------------------

/// What is said of a directory that cannot be used: a code, a message, and the error.
pub open spec fn finding(path: Seq<char>, outcome: ProbeOutcome) -> Option<
    (Seq<char>, Seq<char>, Option<Seq<char>>, Option<Seq<char>>),
> {
    match outcome {
        ProbeOutcome::Ready => None,
        ProbeOutcome::NotDirectory => Some(
            (
                "model_cache_not_directory"@,
                "[index-mcp] Model cache path "@ + path + " exists but is not a directory."@,
                None,
                None,
            ),
        ),
        ProbeOutcome::StatFailed { error, kind } => Some(
            (
                "model_cache_stat_failed"@,
                "[index-mcp] Unable to inspect model cache directory "@ + path + "."@,
                Some(error@),
                Some(kind@),
            ),
        ),
        ProbeOutcome::CreationFailed { error, kind } => Some(
            (
                "model_cache_creation_failed"@,
                "[index-mcp] Unable to create model cache directory "@ + path + "."@,
                Some(error@),
                Some(kind@),
            ),
        ),
        ProbeOutcome::Unwritable { error, kind } => Some(
            (
                "model_cache_unwritable"@,
                "[index-mcp] Model cache directory "@ + path + " is not writable."@,
                Some(error@),
                Some(kind@),
            ),
        ),
    }
}

/// The finding is that of a candidate whose preparation ended so.
pub open spec fn is_finding(
    d: EnvironmentDiagnostic,
    candidate: DirectoryCandidate,
    outcome: ProbeOutcome,
) -> bool {
    match (finding(candidate.path@, outcome), d.context) {
        (Some((code, message, error, kind)), Some(context)) => {
            &&& d.level == DiagnosticLevel::Error
            &&& d.code@ == code
            &&& d.message@ == message
            &&& context.source == candidate.source
            &&& context.path@ == candidate.path@
            &&& text_of(context.error) == error
            &&& text_of(context.code) == kind
        },
        _ => false,
    }
}

/// The finding of a candidate whose preparation ended so.
pub fn describe_outcome(candidate: &DirectoryCandidate, outcome: ProbeOutcome) -> (r: Option<
    EnvironmentDiagnostic,
>)
    ensures
        match r {
            Some(d) => is_finding(d, *candidate, outcome),
            None => outcome is Ready,
        },
{
    let path = candidate.path.as_str();
    let (code, message, error, kind) = match outcome {
        ProbeOutcome::Ready => return None,
        ProbeOutcome::NotDirectory => {
            let mut text = "[index-mcp] Model cache path ".to_owned();
            text.append(path);
            text.append(" exists but is not a directory.");
            ("model_cache_not_directory".to_owned(), text, None, None)
        },
        ProbeOutcome::StatFailed { error, kind } => {
            let mut text = "[index-mcp] Unable to inspect model cache directory ".to_owned();
            text.append(path);
            text.append(".");
            ("model_cache_stat_failed".to_owned(), text, Some(error), Some(kind))
        },
        ProbeOutcome::CreationFailed { error, kind } => {
            let mut text = "[index-mcp] Unable to create model cache directory ".to_owned();
            text.append(path);
            text.append(".");
            ("model_cache_creation_failed".to_owned(), text, Some(error), Some(kind))
        },
        ProbeOutcome::Unwritable { error, kind } => {
            let mut text = "[index-mcp] Model cache directory ".to_owned();
            text.append(path);
            text.append(" is not writable.");
            ("model_cache_unwritable".to_owned(), text, Some(error), Some(kind))
        },
    };
    Some(
        EnvironmentDiagnostic {
            level: DiagnosticLevel::Error,
            code,
            message,
            context: Some(
                DiagnosticContext {
                    source: candidate.source,
                    path: candidate.path.clone(),
                    error,
                    code: kind,
                },
            ),
        },
    )
}

/// Two findings are the same failure: the same code, of the same directory from the same
/// source.
pub open spec fn same_failure(a: EnvironmentDiagnostic, b: EnvironmentDiagnostic) -> bool {
    a.code@ == b.code@ && match (a.context, b.context) {
        (Some(x), Some(y)) => x.source == y.source && x.path@ == y.path@,
        (None, None) => true,
        _ => false,
    }
}

fn is_same_failure(a: &EnvironmentDiagnostic, b: &EnvironmentDiagnostic) -> (r: bool)
    ensures
        r == same_failure(*a, *b),
{
    if !same_text(a.code.as_str(), b.code.as_str()) {
        return false;
    }
    match (&a.context, &b.context) {
        (Some(x), Some(y)) => x.source == y.source && same_text(x.path.as_str(), y.path.as_str()),
        (None, None) => true,
        _ => false,
    }
}

/// The failure was recorded before.
pub open spec fn recorded(list: Seq<EnvironmentDiagnostic>, d: EnvironmentDiagnostic) -> bool {
    exists|i: int|
        0 <= i < list.len() && (#[trigger] list[i]).level == DiagnosticLevel::Error && same_failure(
            list[i],
            d,
        )
}

/// Records a finding, unless it is an error that was recorded before.
pub fn record_diagnostic(list: &mut Vec<EnvironmentDiagnostic>, diagnostic: EnvironmentDiagnostic)
    ensures
        final(list)@ == (if diagnostic.level == DiagnosticLevel::Error && recorded(
            old(list)@,
            diagnostic,
        ) {
            old(list)@
        } else {
            old(list)@.push(diagnostic)
        }),
{
    if diagnostic.level == DiagnosticLevel::Error {
        let mut i: usize = 0;
        while i < list.len()
            invariant
                i <= list@.len(),
                list@ == old(list)@,
                diagnostic.level == DiagnosticLevel::Error,
                forall|k: int|
                    0 <= k < i ==> !((#[trigger] list@[k]).level == DiagnosticLevel::Error
                        && same_failure(list@[k], diagnostic)),
            decreases list.len() - i,
        {
            if list[i].level == DiagnosticLevel::Error && is_same_failure(&list[i], &diagnostic) {
                assert(same_failure(list@[i as int], diagnostic));
                return;
            }
            i += 1;
        }
    }
    list.push(diagnostic);
}

/// A failure is recorded once however often it comes.
pub proof fn law_recorded_once(list: Seq<EnvironmentDiagnostic>, d: EnvironmentDiagnostic)
    requires
        d.level == DiagnosticLevel::Error,
    ensures
        recorded(list.push(d), d),
{
    assert(list.push(d)[list.len() as int] == d);
}

/// The finding that no directory can be used.
pub open spec fn is_unavailable(d: EnvironmentDiagnostic) -> bool {
    &&& d.level == DiagnosticLevel::Error
    &&& d.code@ == "model_cache_unavailable"@
    &&& d.message@
        == "[index-mcp] Unable to configure a writable embedding model cache directory."@
    &&& d.context is None
}

/// Where models are cached: in the candidate that was prepared last where that one is
/// ready, else nowhere, which is a finding of its own. `diagnostics` holds what was found
/// on the way.
pub fn settle_cache(ready: Option<&DirectoryCandidate>, diagnostics: Vec<EnvironmentDiagnostic>) -> (r:
    ModelCacheInfo)
    ensures
        match ready {
            Some(candidate) => {
                &&& text_of(r.directory) == Some(candidate.path@)
                &&& r.source == Some(candidate.source)
                &&& r.diagnostics == diagnostics
            },
            None => {
                &&& r.directory is None
                &&& r.source is None
                &&& r.diagnostics@.len() == diagnostics@.len() + 1
                &&& r.diagnostics@.drop_last() == diagnostics@
                &&& is_unavailable(r.diagnostics@.last())
            },
        },
{
    match ready {
        Some(candidate) => ModelCacheInfo {
            directory: Some(candidate.path.clone()),
            source: Some(candidate.source),
            diagnostics,
        },
        None => {
            let ghost before = diagnostics@;
            let mut list = diagnostics;
            list.push(
                EnvironmentDiagnostic {
                    level: DiagnosticLevel::Error,
                    code: "model_cache_unavailable".to_owned(),
                    message:
                        "[index-mcp] Unable to configure a writable embedding model cache directory.".to_owned(),
                    context: None,
                },
            );
            assert(list@.drop_last() =~= before);
            ModelCacheInfo { directory: None, source: None, diagnostics: list }
        },
    }
}

/// What comes next after a candidate was tried.
#[derive(Debug, Clone, Copy, PartialEq, Eq, Structural)]
pub enum CacheStep {
    /// The next candidate is tried.
    TryNext,
    /// This candidate serves as the cache.
    Use,
}

/// What comes next after a candidate was tried; a finding is recorded where it cannot be
/// used.
pub fn after_probe(
    candidate: &DirectoryCandidate,
    outcome: ProbeOutcome,
    diagnostics: &mut Vec<EnvironmentDiagnostic>,
) -> (r: CacheStep)
    ensures
        match outcome {
            ProbeOutcome::Ready => r == CacheStep::Use && final(diagnostics)@ == old(
                diagnostics,
            )@,
            _ => {
                &&& r == CacheStep::TryNext
                &&& exists|d: EnvironmentDiagnostic|
                    is_finding(d, *candidate, outcome) && final(diagnostics)@ == (if recorded(
                        old(diagnostics)@,
                        d,
                    ) {
                        old(diagnostics)@
                    } else {
                        #[trigger] old(diagnostics)@.push(d)
                    })
            },
        },
{
    match describe_outcome(candidate, outcome) {
        Some(d) => {
            let ghost pushed = diagnostics@.push(d);
            record_diagnostic(diagnostics, d);
            CacheStep::TryNext
        },
        None => CacheStep::Use,
    }
}

/// The setting of the model directory is filled in where it is blank.
pub fn fills_model_dir(setting: &Option<String>) -> (r: bool)
    ensures
        r == (trimmed_option(text_of(*setting)) is None),
{
    trim_option(setting).is_none()
}

/// The settings go before the home directory, and that before the temporary one.
pub proof fn law_candidates_ranked(s: Surroundings)
    ensures
        ({
            let c = candidates_of(s);
            let a = trimmed_option(text_of(s.fastembed_dir));
            let b = trimmed_option(text_of(s.model_dir));
            &&& a is Some ==> c[0].1 is FastembedCacheDir
            &&& a is None && b is Some ==> c[0].1 is IndexMcpModelCacheDir
            &&& a is Some && b is Some ==> c[1].1 is IndexMcpModelCacheDir
            &&& a is None && b is None && s.home is Some ==> c[0].1 is Default
            &&& a is None && b is None && s.home is None ==> c.len() == 1
            &&& s.home is Some ==> c[c.len() - 2].1 is Default
            &&& c.last().1 is Tmp
            &&& c.len() <= 4
        }),
{
}

/// A setting is taken from inside the working directory, unless it begins at the root; the
/// other candidates are of the project's own.
pub proof fn law_candidate_paths(s: Surroundings, i: int)
    requires
        0 <= i < candidates_of(s).len(),
    ensures
        ({
            let (path, source) = candidates_of(s)[i];
            &&& source is FastembedCacheDir ==> trimmed_option(text_of(s.fastembed_dir)) is Some
                && path == absolute_of(
                trimmed_option(text_of(s.fastembed_dir))->0,
                text_of(s.working_dir),
            )
            &&& source is IndexMcpModelCacheDir ==> trimmed_option(text_of(s.model_dir)) is Some
                && path == absolute_of(
                trimmed_option(text_of(s.model_dir))->0,
                text_of(s.working_dir),
            )
            &&& source is Default ==> s.home is Some && (s.home->0@.len() > 0 && s.home->0@.last()
                != '/' ==> path == s.home->0@ + "/.index-mcp/models"@)
            &&& source is Tmp ==> (s.temp@.len() > 0 && s.temp@.last() != '/' ==> path == s.temp@
                + "/index-mcp/models"@)
        }),
{
    reveal_strlit(".index-mcp");
    reveal_strlit("index-mcp");
    reveal_strlit("models");
    reveal_strlit("/.index-mcp/models");
    reveal_strlit("/index-mcp/models");
    if let Some(home) = s.home {
        let h = home@;
        if h.len() > 0 && h.last() != '/' {
            let inner = h.push('/') + ".index-mcp"@;
            assert(inner.last() == 'p');
            assert(inner.push('/') + "models"@ =~= h + "/.index-mcp/models"@);
        }
    }
    let t = s.temp@;
    if t.len() > 0 && t.last() != '/' {
        let inner = t.push('/') + "index-mcp"@;
        assert(inner.last() == 'p');
        assert(inner.push('/') + "models"@ =~= t + "/index-mcp/models"@);
    }
}

/// A path that begins at the root is taken as it is, and another one from inside the working
/// directory where that is known.
pub proof fn law_absolute(path: Seq<char>, dir: Seq<char>)
    requires
        dir.len() > 0,
        dir.last() != '/',
    ensures
        absolute_of(path, None) == path,
        path.len() > 0 && path[0] == '/' ==> absolute_of(path, Some(dir)) == path,
        path.len() == 0 || path[0] != '/' ==> absolute_of(path, Some(dir)) == dir + "/"@ + path,
{
    reveal_strlit("/");
    assert(dir + "/"@ + path =~= dir.push('/') + path);
}

/// Nothing is found of a directory that is ready. Of another one the path is told, the error
/// where there was one, and a code for what failed.
pub proof fn law_findings(path: Seq<char>, a: ProbeOutcome)
    ensures
        finding(path, a) is None <==> a is Ready,
        finding(path, a) matches Some(f) ==> crate::pieces::contains_text(f.1, path),
        finding(path, a) matches Some(f) ==> match a {
            ProbeOutcome::StatFailed { error, kind } => f.2 == Some(error@) && f.3 == Some(kind@),
            ProbeOutcome::CreationFailed { error, kind } => f.2 == Some(error@) && f.3 == Some(
                kind@,
            ),
            ProbeOutcome::Unwritable { error, kind } => f.2 == Some(error@) && f.3 == Some(kind@),
            _ => f.2 is None && f.3 is None,
        },
        a is NotDirectory ==> (finding(path, a) matches Some(f) ==> f.0 == "model_cache_not_directory"@),
        a is StatFailed ==> (finding(path, a) matches Some(f) ==> f.0 == "model_cache_stat_failed"@),
        a is CreationFailed ==> (finding(path, a) matches Some(f) ==> f.0 == "model_cache_creation_failed"@),
        a is Unwritable ==> (finding(path, a) matches Some(f) ==> f.0 == "model_cache_unwritable"@),
{
    if let Some((code, message, error, kind)) = finding(path, a) {
        let lead = match a {
            ProbeOutcome::NotDirectory => "[index-mcp] Model cache path "@,
            ProbeOutcome::StatFailed { .. } => "[index-mcp] Unable to inspect model cache directory "@,
            ProbeOutcome::CreationFailed { .. } => "[index-mcp] Unable to create model cache directory "@,
            _ => "[index-mcp] Model cache directory "@,
        };
        assert(message.subrange(lead.len() as int, (lead.len() + path.len()) as int) =~= path);
        assert(crate::pieces::occurs_at(message, path, lead.len() as int));
    }
}

/// Two findings are the same failure in either order, and never where their codes, their
/// sources or their paths differ.
pub proof fn law_same_failure(a: EnvironmentDiagnostic, b: EnvironmentDiagnostic)
    ensures
        same_failure(a, a),
        same_failure(a, b) <==> same_failure(b, a),
        a.code@ != b.code@ ==> !same_failure(a, b),
        a.context is Some && b.context is None ==> !same_failure(a, b),
        a.context is Some && b.context is Some && a.context->0.path@ != b.context->0.path@
            ==> !same_failure(a, b),
        a.context is Some && b.context is Some && a.context->0.source != b.context->0.source
            ==> !same_failure(a, b),
{
}

/// A finding is an error of the directory that was tried, and it tells where that came from
/// and what went wrong.
pub proof fn law_finding_told(
    candidate: &DirectoryCandidate,
    outcome: ProbeOutcome,
    found: Option<EnvironmentDiagnostic>,
)
    requires
        call_ensures(describe_outcome, (candidate, outcome), found),
    ensures
        found is None <==> outcome is Ready,
        found matches Some(d) ==> d.level == DiagnosticLevel::Error && d.context is Some,
        found matches Some(d) ==> (d.context matches Some(c) ==> c.path@ == candidate.path@
            && c.source == candidate.source),
        found matches Some(d) ==> (finding(candidate.path@, outcome) matches Some(f) ==> d.code@
            == f.0 && d.message@ == f.1),
        found matches Some(d) ==> (d.context matches Some(c) ==> (outcome matches
            ProbeOutcome::StatFailed { error, kind } ==> text_of(c.error) == Some(error@)
            && text_of(c.code) == Some(kind@))),
{
}

} // verus!
