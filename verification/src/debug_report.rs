//! A report on the tools of the server: which are run against a workspace, and what is
//! said of each.

use vstd::prelude::*;
use vstd::slice::slice_subrange;
use crate::bundle::{BundleDefinition, ContextBundleParams, ContextBundleResponse};
use crate::bundle_graph::text_of;
use crate::decimal::{decimal, push_decimal, push_signed_decimal, push_wide_decimal, signed_decimal};
use crate::git_timeline::{
    append_texts, RepositoryTimelineEntryLookupResponse, RepositoryTimelineResponse,
};
use crate::index_status::IndexStatusResponse;
use crate::ingest::{IngestParams, IngestResponse};
use crate::paths::{below_any, join_path, path_in, strip_prefix};
use crate::pieces::{join, joined, push_text, replace_char, replaced_char, texts};
use crate::score::{fine_score_text, push_fine_score, push_score, score_text};
use crate::search::{
    SemanticSearchMatch, SemanticSearchParams, SemanticSearchResponse, SuggestedTool, SummaryMode,
};
use crate::search_results::{search_summary, summarize_semantic_search};
use crate::service_suggest::cut_at;
use crate::sizes::{byte_length, utf8_size};
use crate::text::{chars_of, string_of, trim_str, trimmed};

verus! {

// ---------------------------------------------------------------------------
// Sections
// ---------------------------------------------------------------------------

/// A part of the report.
#[derive(Debug, Clone, Copy, PartialEq, Eq, Structural)]
pub enum Section {
    Ingest,
    SemanticSearch,
    CodeLookupSearch,
    ContextBundle,
    CodeLookupBundle,
    IndexStatus,
    RepositoryTimeline,
}

/// Every part of the report, in order.
pub open spec fn every_section() -> Seq<Section> {
    seq![
        Section::Ingest,
        Section::SemanticSearch,
        Section::CodeLookupSearch,
        Section::ContextBundle,
        Section::CodeLookupBundle,
        Section::IndexStatus,
        Section::RepositoryTimeline,
    ]
}

impl Section {
    /// Every part of the report, in order.
    pub fn all() -> (r: Vec<Section>)
        ensures
            r@ == every_section(),
    {
        let mut out: Vec<Section> = Vec::new();
        out.push(Section::Ingest);
        out.push(Section::SemanticSearch);
        out.push(Section::CodeLookupSearch);
        out.push(Section::ContextBundle);
        out.push(Section::CodeLookupBundle);
        out.push(Section::IndexStatus);
        out.push(Section::RepositoryTimeline);
        assert(out@ =~= every_section());
        out
    }

    /// The name of the part.
    pub fn key(&self) -> (r: &'static str)
        ensures
            r@ == match *self {
                Section::Ingest => "ingest_codebase"@,
                Section::SemanticSearch => "semantic_search"@,
                Section::CodeLookupSearch => "code_lookup_search"@,
                Section::ContextBundle => "context_bundle"@,
                Section::CodeLookupBundle => "code_lookup_bundle"@,
                Section::IndexStatus => "index_status"@,
                Section::RepositoryTimeline => "repository_timeline"@,
            },
    {
        match self {
            Section::Ingest => "ingest_codebase",
            Section::SemanticSearch => "semantic_search",
            Section::CodeLookupSearch => "code_lookup_search",
            Section::ContextBundle => "context_bundle",
            Section::CodeLookupBundle => "code_lookup_bundle",
            Section::IndexStatus => "index_status",
            Section::RepositoryTimeline => "repository_timeline",
        }
    }
}

/// The parts, each once, in the order in which they come first.
pub open spec fn each_once(sections: Seq<Section>) -> Seq<Section>
    decreases sections.len(),
{
    if sections.len() == 0 {
        sections
    } else {
        let before = each_once(sections.drop_last());
        if before.contains(sections.last()) {
            before
        } else {
            before.push(sections.last())
        }
    }
}

/// The parts without those that are skipped.
pub open spec fn without(sections: Seq<Section>, skipped: Seq<Section>) -> Seq<Section>
    decreases sections.len(),
{
    if sections.len() == 0 {
        sections
    } else if skipped.contains(sections.last()) {
        without(sections.drop_last(), skipped)
    } else {
        without(sections.drop_last(), skipped).push(sections.last())
    }
}

/// The parts of a report: those that are asked for, else all, without those that are
/// skipped; all where none is left.
pub open spec fn sections_of(requested: Seq<Section>, skipped: Seq<Section>) -> Seq<Section> {
    let wanted = if requested.len() == 0 {
        every_section()
    } else {
        each_once(requested)
    };
    let kept = without(wanted, skipped);
    if kept.len() == 0 {
        every_section()
    } else {
        kept
    }
}

fn has_section(sections: &Vec<Section>, section: Section) -> (r: bool)
    ensures
        r == sections@.contains(section),
{
    let mut i: usize = 0;
    while i < sections.len()
        invariant
            i <= sections@.len(),
            forall|k: int| 0 <= k < i ==> sections@[k] != section,
        decreases sections.len() - i,
    {
        if sections[i] == section {
            assert(sections@[i as int] == section);
            return true;
        }
        i += 1;
    }
    false
}

/// The parts of a report.
pub fn determine_sections(requested: &Vec<Section>, skipped: &Vec<Section>) -> (r: Vec<Section>)
    ensures
        r@ == sections_of(requested@, skipped@),
{
    let mut chosen: Vec<Section> = Vec::new();
    if requested.len() == 0 {
        chosen = Section::all();
    } else {
        let mut i: usize = 0;
        assert(requested@.take(0) =~= Seq::<Section>::empty());
        while i < requested.len()
            invariant
                i <= requested@.len(),
                chosen@ == each_once(requested@.take(i as int)),
            decreases requested.len() - i,
        {
            proof {
                assert(requested@.take(i + 1).drop_last() =~= requested@.take(i as int));
                assert(requested@.take(i + 1).last() == requested@[i as int]);
            }
            if !has_section(&chosen, requested[i]) {
                chosen.push(requested[i]);
            }
            i += 1;
        }
        assert(requested@.take(i as int) =~= requested@);
    }
    let mut kept: Vec<Section> = Vec::new();
    let mut i: usize = 0;
    assert(chosen@.take(0) =~= Seq::<Section>::empty());
    while i < chosen.len()
        invariant
            i <= chosen@.len(),
            kept@ == without(chosen@.take(i as int), skipped@),
        decreases chosen.len() - i,
    {
        proof {
            assert(chosen@.take(i + 1).drop_last() =~= chosen@.take(i as int));
            assert(chosen@.take(i + 1).last() == chosen@[i as int]);
        }
        if !has_section(skipped, chosen[i]) {
            kept.push(chosen[i]);
        }
        i += 1;
    }
    assert(chosen@.take(i as int) =~= chosen@);
    if kept.len() == 0 {
        Section::all()
    } else {
        kept
    }
}

/// A report always has a part.
pub proof fn law_report_not_empty(requested: Seq<Section>, skipped: Seq<Section>)
    ensures
        sections_of(requested, skipped).len() > 0,
{
}

/// What became of a part.
#[derive(Debug)]
pub enum SectionExecution {
    Success { message: Option<String> },
    Skipped { reason: Option<String> },
    Failed { error: String },
}

impl SectionExecution {
    /// What became of the part, in one word.
    pub open spec fn word(&self) -> Seq<char> {
        match *self {
            SectionExecution::Success { .. } => "success"@,
            SectionExecution::Skipped { .. } => "skipped"@,
            SectionExecution::Failed { .. } => "failed"@,
        }
    }

    /// What became of the part, in one word.
    pub fn status(&self) -> (r: &'static str)
        ensures
            r@ == self.word(),
    {
        match self {
            SectionExecution::Success { .. } => "success",
            SectionExecution::Skipped { .. } => "skipped",
            SectionExecution::Failed { .. } => "failed",
        }
    }

    /// What is said of the part.
    pub open spec fn note(&self) -> Option<Seq<char>> {
        match *self {
            SectionExecution::Success { message } => text_of(message),
            SectionExecution::Skipped { reason } => text_of(reason),
            SectionExecution::Failed { error } => Some(error@),
        }
    }

    /// What is said of the part.
    pub fn message(&self) -> (r: Option<String>)
        ensures
            text_of(r) == self.note(),
    {
        match self {
            SectionExecution::Success { message } => message.clone(),
            SectionExecution::Skipped { reason } => reason.clone(),
            SectionExecution::Failed { error } => Some(error.clone()),
        }
    }

    /// Whether the part failed.
    pub fn is_failure(&self) -> (r: bool)
        ensures
            r == (*self is Failed),
    {
        match self {
            SectionExecution::Failed { .. } => true,
            _ => false,
        }
    }
}

/// Whether the report goes on after a part: it stops at a failure where that is wanted.
pub fn goes_on(execution: &SectionExecution, fail_fast: bool) -> (r: bool)
    ensures
        r == !(*execution is Failed && fail_fast),
{
    !(execution.is_failure() && fail_fast)
}

/// The line with how a part ended.
pub open spec fn status_line(word: Seq<char>, duration_ms: u128) -> Seq<char> {
    "status: "@ + word + " ("@ + decimal(duration_ms as nat) + " ms)"@
}

/// The lines of a part of the report.
pub open spec fn section_lines(
    header: Seq<char>,
    duration_ms: u128,
    execution: SectionExecution,
) -> Seq<Seq<char>> {
    let head = seq!["=== "@ + header + " ==="@];
    let status = seq![status_line(execution.word(), duration_ms)];
    let end = seq![Seq::<char>::empty()];
    match execution {
        SectionExecution::Success { message } => match message {
            Some(m) => head + seq![m@] + status + end,
            None => head + status + end,
        },
        SectionExecution::Skipped { reason } => match reason {
            Some(m) => head + status + seq!["reason: "@ + m@] + end,
            None => head + status + end,
        },
        SectionExecution::Failed { error } => head + status + seq!["error: "@ + error@] + end,
    }
}

fn write_status(execution: &SectionExecution, duration_ms: u128) -> (r: String)
    ensures
        r@ == status_line(execution.word(), duration_ms),
{
    let mut out = "status: ".to_owned();
    out.append(execution.status());
    out.append(" (");
    push_wide_decimal(&mut out, duration_ms);
    out.append(" ms)");
    out
}

/// The lines of a part of the report.
pub fn log_lines(header: &str, duration_ms: u128, execution: &SectionExecution) -> (r: Vec<String>)
    ensures
        texts(r@) == section_lines(header@, duration_ms, *execution),
{
    let mut out: Vec<String> = Vec::new();
    let mut head = "=== ".to_owned();
    head.append(header);
    head.append(" ===");
    push_text(&mut out, head);
    let status = write_status(execution, duration_ms);
    match execution {
        SectionExecution::Success { message } => {
            if let Some(m) = message {
                push_text(&mut out, m.clone());
            }
            push_text(&mut out, status);
        },
        SectionExecution::Skipped { reason } => {
            push_text(&mut out, status);
            if let Some(m) = reason {
                let mut line = "reason: ".to_owned();
                line.append(m.as_str());
                push_text(&mut out, line);
            }
        },
        SectionExecution::Failed { error } => {
            push_text(&mut out, status);
            let mut line = "error: ".to_owned();
            line.append(error.as_str());
            push_text(&mut out, line);
        },
    }
    push_text(&mut out, String::new());
    assert(texts(out@) =~= section_lines(header@, duration_ms, *execution));
    out
}

// ---------------------------------------------------------------------------
// What is run
// ---------------------------------------------------------------------------

/// What a report is asked for.
#[derive(Debug)]
pub struct RunConfig {
    pub root: String,
    pub database: Option<String>,
    pub query: String,
    pub bundle_file: Option<String>,
    pub limit: u32,
    pub max_snippets: u32,
    pub max_neighbors: u32,
    pub budget_tokens: u32,
    pub fail_fast: bool,
    pub include_diffs: bool,
}

/// The title of a part.
pub fn section_header(section: Section, config: &RunConfig) -> (r: String)
    ensures
        r@ == match section {
            Section::Ingest => "ingest_codebase (root="@ + config.root@ + ")"@,
            Section::SemanticSearch => "semantic_search query='"@ + config.query@ + "'"@,
            Section::CodeLookupSearch => "code_lookup (search mode approximation)"@,
            Section::ContextBundle => match config.bundle_file {
                Some(file) => "context_bundle file='"@ + file@ + "'"@,
                None => "context_bundle"@,
            },
            Section::CodeLookupBundle => "code_lookup (bundle mode approximation)"@,
            Section::IndexStatus => "index_status"@,
            Section::RepositoryTimeline => "repository_timeline"@,
        },
{
    match section {
        Section::Ingest => {
            let mut out = "ingest_codebase (root=".to_owned();
            out.append(config.root.as_str());
            out.append(")");
            out
        },
        Section::SemanticSearch => {
            let mut out = "semantic_search query='".to_owned();
            out.append(config.query.as_str());
            out.append("'");
            out
        },
        Section::CodeLookupSearch => "code_lookup (search mode approximation)".to_owned(),
        Section::ContextBundle => match &config.bundle_file {
            Some(file) => {
                let mut out = "context_bundle file='".to_owned();
                out.append(file.as_str());
                out.append("'");
                out
            },
            None => "context_bundle".to_owned(),
        },
        Section::CodeLookupBundle => "code_lookup (bundle mode approximation)".to_owned(),
        Section::IndexStatus => "index_status".to_owned(),
        Section::RepositoryTimeline => "repository_timeline".to_owned(),
    }
}

/// The ingestion that a report runs.
pub fn debug_ingest_params(config: &RunConfig) -> (r: IngestParams)
    ensures
        r.root == Some(config.root),
        r.database_name == config.database,
        r.auto_evict == Some(false),
        r.included is None && r.excluded is None && r.paths is None,
        r.max_file_size_bytes is None && r.store_file_content is None,
        r.max_database_size_bytes is None && r.embedding is None,
{
    IngestParams {
        root: Some(config.root.clone()),
        included: None,
        excluded: None,
        database_name: config.database.clone(),
        max_file_size_bytes: None,
        store_file_content: None,
        paths: None,
        auto_evict: Some(false),
        max_database_size_bytes: None,
        embedding: None,
    }
}

/// The search that a report runs.
pub fn debug_search_params(config: &RunConfig) -> (r: SemanticSearchParams)
    ensures
        r.root == Some(config.root),
        r.query == config.query,
        r.database_name == config.database,
        r.limit == Some(config.limit),
        r.summary_mode == Some(SummaryMode::Brief),
        r.max_context_before == Some(1u32),
        r.max_context_after == Some(1u32),
        r.model is None && r.language is None && r.path_prefix is None && r.path_contains is None,
        r.classification is None && r.recent_hits is None,
{
    SemanticSearchParams {
        root: Some(config.root.clone()),
        query: config.query.clone(),
        database_name: config.database.clone(),
        limit: Some(config.limit),
        model: None,
        language: None,
        path_prefix: None,
        path_contains: None,
        classification: None,
        summary_mode: Some(SummaryMode::Brief),
        max_context_before: Some(1),
        max_context_after: Some(1),
        recent_hits: None,
    }
}

/// The bundle that a report builds.
pub fn debug_bundle_params(config: &RunConfig, file: &str) -> (r: ContextBundleParams)
    ensures
        r.root == Some(config.root),
        r.database_name == config.database,
        r.file@ == file@,
        r.max_snippets == Some(config.max_snippets),
        r.max_neighbors == Some(config.max_neighbors),
        r.budget_tokens == Some(config.budget_tokens),
        r.symbol is None && r.ranges is None && r.focus_line is None && r.query is None
            && r.context_goals is None,
{
    ContextBundleParams {
        root: Some(config.root.clone()),
        database_name: config.database.clone(),
        file: file.to_owned(),
        symbol: None,
        max_snippets: Some(config.max_snippets),
        max_neighbors: Some(config.max_neighbors),
        budget_tokens: Some(config.budget_tokens),
        ranges: None,
        focus_line: None,
        query: None,
        context_goals: None,
    }
}

/// The paths of the matches.
pub open spec fn match_paths(results: Seq<SemanticSearchMatch>) -> Seq<Seq<char>> {
    results.map_values(|m: SemanticSearchMatch| m.path@)
}

/// The paths that a search found.
pub open spec fn found_paths(search: Option<SemanticSearchResponse>) -> Seq<Seq<char>> {
    match search {
        Some(response) => match_paths(response.results@),
        None => Seq::empty(),
    }
}

/// The files that a bundle may be built for, the likeliest first: the one that is named,
/// those that a search found, and files that many workspaces have.
pub open spec fn candidates_of(
    named: Option<Seq<char>>,
    found: Seq<Seq<char>>,
) -> Seq<Seq<char>> {
    (match named {
        Some(file) => seq![file],
        None => Seq::empty(),
    }) + found + seq!["rust-migration.md"@, "README.md"@]
}

/// The files that a bundle may be built for, the likeliest first.
pub fn bundle_candidates(config: &RunConfig, search: &Option<SemanticSearchResponse>) -> (r: Vec<
    String,
>)
    ensures
        texts(r@) == candidates_of(
            text_of(config.bundle_file),
            found_paths(*search),
        ),
{
    let mut out: Vec<String> = Vec::new();
    if let Some(file) = &config.bundle_file {
        push_text(&mut out, file.clone());
    }
    let ghost named = match text_of(config.bundle_file) {
        Some(file) => seq![file],
        None => Seq::empty(),
    };
    assert(texts(out@) =~= named);
    let ghost found = found_paths(*search);
    if let Some(response) = search {
        let mut i: usize = 0;
        assert(texts(out@) =~= named + found.take(0));
        while i < response.results.len()
            invariant
                i <= response.results@.len(),
                found == match_paths(response.results@),
                texts(out@) == named + found.take(i as int),
            decreases response.results.len() - i,
        {
            assert(named + found.take(i + 1) =~= (named + found.take(i as int)).push(
                response.results@[i as int].path@,
            ));
            push_text(&mut out, response.results[i].path.clone());
            i += 1;
        }
        assert(found.take(i as int) =~= found);
    }
    assert(texts(out@) =~= named + found);
    push_text(&mut out, "rust-migration.md".to_owned());
    push_text(&mut out, "README.md".to_owned());
    assert(texts(out@) =~= named + found + seq!["rust-migration.md"@, "README.md"@]);
    out
}

/// Where a candidate lies, and how it is named: by its path below the root, else by its
/// whole path.
pub fn locate_candidate(root: &str, candidate: &str) -> (r: (String, String))
    ensures
        r.0@ == path_in(root@, candidate@),
        r.1@ == replaced_char(
            match below_any(root@, r.0@) {
                Some(rest) => rest,
                None => r.0@,
            },
            '\\',
            '/',
        ),
{
    let absolute = join_path(root, candidate);
    let name = match strip_prefix(root, absolute.as_str()) {
        Some(rest) => replace_char(rest.as_str(), '\\', '/'),
        None => replace_char(absolute.as_str(), '\\', '/'),
    };
    (absolute, name)
}

// ---------------------------------------------------------------------------
// What is said
// ---------------------------------------------------------------------------

/// What is said of an ingestion.
pub fn report_ingest(response: &IngestResponse) -> (r: String)
    ensures
        r@ == "ingest_codebase: "@ + decimal(response.ingested_file_count as nat) + " file(s), "@
            + decimal(response.embedded_chunk_count as nat) + " embedded chunk(s), db="@
            + response.database_path@ + (match response.reused_file_count {
            Some(n) => ", reused "@ + decimal(n as nat) + " cached file(s)"@,
            None => Seq::empty(),
        }),
{
    let mut out = "ingest_codebase: ".to_owned();
    push_decimal(&mut out, response.ingested_file_count as u64);
    out.append(" file(s), ");
    push_decimal(&mut out, response.embedded_chunk_count as u64);
    out.append(" embedded chunk(s), db=");
    out.append(response.database_path.as_str());
    let ghost before = out@;
    match response.reused_file_count {
        Some(n) => {
            out.append(", reused ");
            push_decimal(&mut out, n as u64);
            out.append(" cached file(s)");
            assert(out@ =~= before + (", reused "@ + decimal(n as nat) + " cached file(s)"@));
        },
        None => {
            assert(out@ =~= before + Seq::<char>::empty());
        },
    }
    out
}

/// The most characters of a preview in a report.
pub const MAX_REPORT_PREVIEW: usize = 80;

/// How many suggestions a report shows.
pub const MAX_REPORT_SUGGESTIONS: usize = 3;

/// A preview on one line.
pub open spec fn flat_preview(preview: Seq<char>) -> Seq<char> {
    trimmed(replaced_char(preview, '\n', ' '))
}

/// What is said of a preview.
pub open spec fn preview_note(preview: Option<Seq<char>>) -> Seq<char> {
    match preview {
        Some(p) => if flat_preview(p).len() == 0 {
            Seq::empty()
        } else {
            " — "@ + cut_at(flat_preview(p), MAX_REPORT_PREVIEW as int)
        },
        None => Seq::empty(),
    }
}

/// The line of a suggestion.
pub open spec fn suggestion_line(tool: SuggestedTool) -> Seq<char> {
    "  "@ + tool.tool@ + "#"@ + decimal(tool.rank as nat) + " -> "@ + (match tool.description {
        Some(text) => text@,
        None => "search match"@,
    }) + " (score "@ + score_text(tool.score) + ")"@ + preview_note(text_of(tool.preview))
}

/// The lines of the suggestions.
pub open spec fn lines_of_suggestions(tools: Seq<SuggestedTool>) -> Seq<Seq<char>> {
    if tools.len() == 0 {
        Seq::empty()
    } else {
        seq!["suggested tool chain:"@] + Seq::new(
            if tools.len() <= MAX_REPORT_SUGGESTIONS {
                tools.len()
            } else {
                MAX_REPORT_SUGGESTIONS as nat
            },
            |i: int| suggestion_line(tools[i]),
        )
    }
}

fn push_preview_note(out: &mut String, preview: &Option<String>)
    ensures
        final(out)@ == old(out)@ + preview_note(text_of(*preview)),
{
    let ghost before = out@;
    if let Some(p) = preview {
        let flat = replace_char(p.as_str(), '\n', ' ');
        let flat = trim_str(flat.as_str());
        if !flat.as_str().is_empty() {
            out.append(" — ");
            let chars = chars_of(flat.as_str());
            if chars.len() <= MAX_REPORT_PREVIEW {
                out.append(flat.as_str());
                assert(out@ =~= before + preview_note(text_of(*preview)));
            } else {
                let head = slice_subrange(chars.as_slice(), 0, MAX_REPORT_PREVIEW);
                assert(head@ =~= flat@.take(MAX_REPORT_PREVIEW as int));
                let text = string_of(head);
                out.append(text.as_str());
                out.append("...");
                assert(out@ =~= before + preview_note(text_of(*preview)));
            }
            return;
        }
    }
    assert(out@ =~= before + preview_note(text_of(*preview)));
}

fn write_suggestion(tool: &SuggestedTool) -> (r: String)
    ensures
        r@ == suggestion_line(*tool),
{
    let mut out = "  ".to_owned();
    out.append(tool.tool.as_str());
    out.append("#");
    push_decimal(&mut out, tool.rank as u64);
    out.append(" -> ");
    match &tool.description {
        Some(text) => out.append(text.as_str()),
        None => out.append("search match"),
    }
    out.append(" (score ");
    push_score(&mut out, tool.score);
    out.append(")");
    push_preview_note(&mut out, &tool.preview);
    out
}

/// The lines of the suggestions.
pub fn suggestion_lines(response: &SemanticSearchResponse) -> (r: Vec<String>)
    ensures
        texts(r@) == lines_of_suggestions(response.suggested_tools@),
{
    let tools = &response.suggested_tools;
    let mut out: Vec<String> = Vec::new();
    if tools.len() == 0 {
        assert(texts(out@) =~= lines_of_suggestions(tools@));
        return out;
    }
    let ghost all = lines_of_suggestions(tools@);
    push_text(&mut out, "suggested tool chain:".to_owned());
    assert(texts(out@) =~= all.take(1));
    let mut i: usize = 0;
    while i < tools.len() && i < MAX_REPORT_SUGGESTIONS
        invariant
            i <= tools@.len(),
            i <= MAX_REPORT_SUGGESTIONS,
            tools@.len() > 0,
            all == lines_of_suggestions(tools@),
            texts(out@) == all.take(i + 1),
        decreases tools.len() - i,
    {
        let line = write_suggestion(&tools[i]);
        push_text(&mut out, line);
        assert(texts(out@) =~= all.take(i + 2));
        i += 1;
    }
    assert(all.take(i + 1) =~= all);
    out
}

/// What is said of the best match of a search.
pub open spec fn top_line(m: SemanticSearchMatch) -> Seq<char> {
    "top match: "@ + m.path@ + " (score="@ + fine_score_text(m.normalized_score) + ")"@
}

fn write_top(m: &SemanticSearchMatch) -> (r: String)
    ensures
        r@ == top_line(*m),
{
    let mut out = "top match: ".to_owned();
    out.append(m.path.as_str());
    out.append(" (score=");
    push_fine_score(&mut out, m.normalized_score);
    out.append(")");
    out
}

/// What is said of a search.
pub fn report_search(response: &SemanticSearchResponse) -> (r: String)
    ensures
        r@ == joined(
            seq![search_summary(*response)] + (if response.results@.len() > 0 {
                seq![top_line(response.results@[0])]
            } else {
                Seq::empty()
            }) + lines_of_suggestions(response.suggested_tools@),
            "\n"@,
        ),
{
    let mut lines: Vec<String> = Vec::new();
    push_text(&mut lines, summarize_semantic_search(response));
    assert(texts(lines@) =~= seq![search_summary(*response)]);
    let ghost first = texts(lines@);
    if response.results.len() > 0 {
        push_text(&mut lines, write_top(&response.results[0]));
        assert(texts(lines@) =~= first + seq![top_line(response.results@[0])]);
    } else {
        assert(texts(lines@) =~= first + Seq::<Seq<char>>::empty());
    }
    let more = suggestion_lines(response);
    append_texts(&mut lines, &more);
    join(lines.as_slice(), "\n")
}

/// What is said of the lookup that uses a search again.
pub fn report_lookup_search(response: &SemanticSearchResponse) -> (r: String)
    ensures
        r@ == joined(
            seq![
                "code_lookup (search): mirrored "@ + decimal(response.results@.len())
                    + " semantic_search result(s)"@,
            ] + lines_of_suggestions(response.suggested_tools@),
            "\n"@,
        ),
{
    let mut lines: Vec<String> = Vec::new();
    let mut head = "code_lookup (search): mirrored ".to_owned();
    push_decimal(&mut head, response.results.len() as u64);
    head.append(" semantic_search result(s)");
    let ghost first = head@;
    push_text(&mut lines, head);
    assert(texts(lines@) =~= seq![first]);
    let more = suggestion_lines(response);
    append_texts(&mut lines, &more);
    join(lines.as_slice(), "\n")
}

/// The definition that a bundle is about.
pub open spec fn main_definition(b: ContextBundleResponse) -> Option<BundleDefinition> {
    match b.focus_definition {
        Some(d) => Some(d),
        None => if b.definitions@.len() > 0 {
            Some(b.definitions@[0])
        } else {
            None
        },
    }
}

/// What is said of the definition that a bundle is about.
pub open spec fn focus_lines_of(d: Option<BundleDefinition>) -> Seq<Seq<char>> {
    match d {
        Some(d) => seq!["focus symbol: "@ + d.name@ + " ("@ + d.kind@ + ")"@],
        None => Seq::empty(),
    }
}

/// What is said of the summary of a file.
pub open spec fn brief_lines(brief: Option<Seq<char>>) -> Seq<Seq<char>> {
    match brief {
        Some(text) => seq!["brief: "@ + text],
        None => Seq::empty(),
    }
}

/// What is said of the tokens of a bundle.
pub open spec fn tokens_line(b: ContextBundleResponse) -> Seq<char> {
    "tokens: "@ + decimal(b.usage.used_tokens as nat) + " used of "@ + decimal(
        b.usage.budget_tokens as nat,
    ) + " ("@ + decimal(b.usage.remaining_tokens as nat) + " unused), summaries="@ + decimal(
        b.usage.summary_snippets as nat,
    ) + ", excerpts="@ + decimal(b.usage.excerpt_snippets as nat)
}

/// What is said of the cache.
pub open spec fn cache_lines(hit: bool) -> Seq<Seq<char>> {
    if hit {
        seq!["cache-hit: true"@]
    } else {
        Seq::empty()
    }
}

/// What is said of a bundle.
pub open spec fn bundle_lines(b: ContextBundleResponse) -> Seq<Seq<char>> {
    seq![
        "context_bundle: "@ + decimal(b.definitions@.len()) + " definition(s), "@ + decimal(
            b.snippets@.len(),
        ) + " snippet(s), "@ + decimal(b.related@.len()) + " related symbol(s)"@,
    ] + focus_lines_of(main_definition(b)) + seq!["file: "@ + b.file.path@] + brief_lines(
        text_of(b.file.brief),
    ) + seq![tokens_line(b)] + cache_lines(b.usage.cache_hit)
}

fn push_focus(lines: &mut Vec<String>, definition: &BundleDefinition)
    ensures
        texts(final(lines)@) == texts(old(lines)@) + focus_lines_of(Some(*definition)),
{
    let ghost before = texts(lines@);
    let mut line = "focus symbol: ".to_owned();
    line.append(definition.name.as_str());
    line.append(" (");
    line.append(definition.kind.as_str());
    line.append(")");
    push_text(lines, line);
    assert(texts(lines@) =~= before + focus_lines_of(Some(*definition)));
}

/// What is said of a bundle.
pub fn report_bundle(response: &ContextBundleResponse) -> (r: String)
    ensures
        r@ == joined(bundle_lines(*response), "\n"@),
{
    let mut lines: Vec<String> = Vec::new();
    let mut head = "context_bundle: ".to_owned();
    push_decimal(&mut head, response.definitions.len() as u64);
    head.append(" definition(s), ");
    push_decimal(&mut head, response.snippets.len() as u64);
    head.append(" snippet(s), ");
    push_decimal(&mut head, response.related.len() as u64);
    head.append(" related symbol(s)");
    let ghost first = head@;
    push_text(&mut lines, head);
    assert(texts(lines@) =~= seq![first]);
    let ghost before = texts(lines@);
    match &response.focus_definition {
        Some(definition) => push_focus(&mut lines, definition),
        None => if response.definitions.len() > 0 {
            push_focus(&mut lines, &response.definitions[0]);
        },
    }
    assert(texts(lines@) =~= before + focus_lines_of(main_definition(*response)));
    let ghost before = texts(lines@);
    let mut file = "file: ".to_owned();
    file.append(response.file.path.as_str());
    push_text(&mut lines, file);
    assert(texts(lines@) =~= before + seq!["file: "@ + response.file.path@]);
    let ghost before = texts(lines@);
    if let Some(brief) = &response.file.brief {
        let mut line = "brief: ".to_owned();
        line.append(brief.as_str());
        push_text(&mut lines, line);
    }
    assert(texts(lines@) =~= before + brief_lines(text_of(response.file.brief)));
    let ghost before = texts(lines@);
    let mut tokens = "tokens: ".to_owned();
    push_decimal(&mut tokens, response.usage.used_tokens as u64);
    tokens.append(" used of ");
    push_decimal(&mut tokens, response.usage.budget_tokens as u64);
    tokens.append(" (");
    push_decimal(&mut tokens, response.usage.remaining_tokens as u64);
    tokens.append(" unused), summaries=");
    push_decimal(&mut tokens, response.usage.summary_snippets as u64);
    tokens.append(", excerpts=");
    push_decimal(&mut tokens, response.usage.excerpt_snippets as u64);
    push_text(&mut lines, tokens);
    assert(texts(lines@) =~= before + seq![tokens_line(*response)]);
    let ghost before = texts(lines@);
    if response.usage.cache_hit {
        push_text(&mut lines, "cache-hit: true".to_owned());
    }
    assert(texts(lines@) =~= before + cache_lines(response.usage.cache_hit));
    join(lines.as_slice(), "\n")
}

/// The word for a truth value.
pub open spec fn truth_word(value: bool) -> Seq<char> {
    if value {
        "true"@
    } else {
        "false"@
    }
}

fn truth_text(value: bool) -> (r: &'static str)
    ensures
        r@ == truth_word(value),
{
    if value {
        "true"
    } else {
        "false"
    }
}

/// What is said of the lookup that uses a bundle again.
pub fn report_lookup_bundle(response: &ContextBundleResponse) -> (r: String)
    ensures
        r@ == "code_lookup (bundle): reused bundle for "@ + response.file.path@ + ", "@ + decimal(
            response.definitions@.len(),
        ) + " definition(s), cache_hit="@ + truth_word(response.usage.cache_hit) + ", tokens "@
            + decimal(response.usage.used_tokens as nat) + " used/"@ + decimal(
            response.usage.budget_tokens as nat,
        ),
{
    let mut out = "code_lookup (bundle): reused bundle for ".to_owned();
    out.append(response.file.path.as_str());
    out.append(", ");
    push_decimal(&mut out, response.definitions.len() as u64);
    out.append(" definition(s), cache_hit=");
    out.append(truth_text(response.usage.cache_hit));
    out.append(", tokens ");
    push_decimal(&mut out, response.usage.used_tokens as u64);
    out.append(" used/");
    push_decimal(&mut out, response.usage.budget_tokens as u64);
    out
}

/// What is said of the state of the index.
pub fn report_index_status(response: &IndexStatusResponse) -> (r: String)
    ensures
        r@ == "index_status: db_exists="@ + truth_word(response.database_exists)
            + ", total_files="@ + decimal(response.total_files as nat) + ", total_chunks="@
            + decimal(response.total_chunks as nat) + ", is_stale="@ + truth_word(
            response.is_stale,
        ),
{
    let mut out = "index_status: db_exists=".to_owned();
    out.append(truth_text(response.database_exists));
    out.append(", total_files=");
    push_decimal(&mut out, response.total_files);
    out.append(", total_chunks=");
    push_decimal(&mut out, response.total_chunks);
    out.append(", is_stale=");
    out.append(truth_text(response.is_stale));
    out
}

/// What is said of a timeline.
pub fn report_timeline(response: &RepositoryTimelineResponse) -> (r: String)
    ensures
        r@ == "repository_timeline: "@ + decimal(response.total_commits as nat)
            + " commit(s), merge_commits="@ + decimal(response.merge_commits as nat)
            + ", total_insertions="@ + signed_decimal(response.total_insertions as int)
            + ", total_deletions="@ + signed_decimal(response.total_deletions as int) + (
        if response.entries@.len() > 0 {
            "\nlatest commit: "@ + response.entries@[0].sha@ + " "@ + response.entries@[0].subject@
        } else {
            Seq::empty()
        }),
{
    let mut out = "repository_timeline: ".to_owned();
    push_decimal(&mut out, response.total_commits as u64);
    out.append(" commit(s), merge_commits=");
    push_decimal(&mut out, response.merge_commits as u64);
    out.append(", total_insertions=");
    push_signed_decimal(&mut out, response.total_insertions);
    out.append(", total_deletions=");
    push_signed_decimal(&mut out, response.total_deletions);
    let ghost before = out@;
    if response.entries.len() > 0 {
        out.append("\nlatest commit: ");
        out.append(response.entries[0].sha.as_str());
        out.append(" ");
        out.append(response.entries[0].subject.as_str());
        assert(out@ =~= before + ("\nlatest commit: "@ + response.entries@[0].sha@ + " "@
            + response.entries@[0].subject@));
    } else {
        assert(out@ =~= before + Seq::<char>::empty());
    }
    out
}

/// What is said of one commit.
pub fn report_timeline_entry(response: &RepositoryTimelineEntryLookupResponse) -> (r: String)
    ensures
        r@ == "repository_timeline_entry: commit "@ + response.entry.sha@ + " diff_bytes="@
            + decimal(
            match response.diff {
                Some(diff) => utf8_size(diff@),
                None => 0,
            },
        ),
{
    let size: usize = match &response.diff {
        Some(diff) => byte_length(diff.as_str()),
        None => 0,
    };
    let mut out = "repository_timeline_entry: commit ".to_owned();
    out.append(response.entry.sha.as_str());
    out.append(" diff_bytes=");
    push_decimal(&mut out, size as u64);
    out
}

/// A report has each part that is asked for once, in the order in which the parts come first,
/// and no other.
pub proof fn law_each_once(sections: Seq<Section>)
    ensures
        each_once(sections).no_duplicates(),
        forall|s: Section| #[trigger] each_once(sections).contains(s) <==> sections.contains(s),
    decreases sections.len(),
{
    if sections.len() > 0 {
        let rest = sections.drop_last();
        let last = sections.last();
        law_each_once(rest);
        let before = each_once(rest);
        let now = each_once(sections);
        assert forall|s: Section| #[trigger] now.contains(s) <==> sections.contains(s) by {
            assert(before.contains(s) <==> rest.contains(s));
            if sections.contains(s) {
                let k = choose|k: int| 0 <= k < sections.len() && sections[k] == s;
                if k < rest.len() {
                    assert(rest[k] == s);
                }
                if !before.contains(last) {
                    if before.contains(s) {
                        let j = choose|j: int| 0 <= j < before.len() && before[j] == s;
                        assert(now[j] == s);
                    } else {
                        assert(now[now.len() - 1] == s);
                    }
                }
            }
            if now.contains(s) {
                let j = choose|j: int| 0 <= j < now.len() && now[j] == s;
                if j < before.len() {
                    assert(before[j] == s);
                    let k = choose|k: int| 0 <= k < rest.len() && rest[k] == s;
                    assert(sections[k] == s);
                } else {
                    assert(sections[sections.len() - 1] == s);
                }
            }
        }
    }
}

/// A part that was met already changes nothing, and a new one comes last.
pub proof fn law_first_place(sections: Seq<Section>, section: Section)
    ensures
        sections.contains(section) ==> each_once(sections.push(section)) == each_once(sections),
        !sections.contains(section) ==> each_once(sections.push(section)) == each_once(
            sections,
        ).push(section),
{
    law_each_once(sections);
    assert(sections.push(section).drop_last() =~= sections);
    assert(each_once(sections).contains(section) <==> sections.contains(section));
}

/// Skipping takes out exactly the skipped parts.
pub proof fn law_without(sections: Seq<Section>, skipped: Seq<Section>)
    ensures
        without(sections, skipped) == sections.filter(|s: Section| !skipped.contains(s)),
    decreases sections.len(),
{
    reveal(Seq::filter);
    if sections.len() > 0 {
        law_without(sections.drop_last(), skipped);
    }
}

/// A report has no part that is skipped and none that is not asked for, unless nothing were
/// left: then it has every part.
pub proof fn law_sections(requested: Seq<Section>, skipped: Seq<Section>, section: Section)
    ensures
        sections_of(requested, skipped).len() > 0,
        sections_of(Seq::empty(), Seq::empty()) == every_section(),
        every_section().contains(section),
        every_section().no_duplicates(),
        sections_of(requested, skipped) == every_section() || !sections_of(
            requested,
            skipped,
        ).contains(section) || (!skipped.contains(section) && (requested.len() == 0
            || requested.contains(section))),
        !skipped.contains(section) && (requested.len() == 0 || requested.contains(section))
            ==> sections_of(requested, skipped).contains(section),
{
    let every = every_section();
    assert(every[0] is Ingest && every[1] is SemanticSearch && every[2] is CodeLookupSearch);
    assert(every[3] is ContextBundle && every[4] is CodeLookupBundle && every[5] is IndexStatus);
    assert(every[6] is RepositoryTimeline);
    assert(every.contains(section)) by {
        let k: int = match section {
            Section::Ingest => 0,
            Section::SemanticSearch => 1,
            Section::CodeLookupSearch => 2,
            Section::ContextBundle => 3,
            Section::CodeLookupBundle => 4,
            Section::IndexStatus => 5,
            Section::RepositoryTimeline => 6,
        };
        assert(every[k] == section);
    }
    let wanted = if requested.len() == 0 {
        every
    } else {
        each_once(requested)
    };
    law_each_once(requested);
    assert(each_once(requested).contains(section) <==> requested.contains(section));
    lemma_without_members(wanted, skipped, section);
    lemma_without_none(every);
}

proof fn lemma_without_none(sections: Seq<Section>)
    ensures
        without(sections, Seq::empty()) == sections,
    decreases sections.len(),
{
    if sections.len() > 0 {
        lemma_without_none(sections.drop_last());
        assert(sections.drop_last().push(sections.last()) =~= sections);
    }
}

proof fn lemma_without_members(sections: Seq<Section>, skipped: Seq<Section>, section: Section)
    ensures
        without(sections, skipped).contains(section) <==> sections.contains(section)
            && !skipped.contains(section),
    decreases sections.len(),
{
    if sections.len() > 0 {
        let rest = sections.drop_last();
        let last = sections.last();
        lemma_without_members(rest, skipped, section);
        let before = without(rest, skipped);
        let now = without(sections, skipped);
        if sections.contains(section) {
            let k = choose|k: int| 0 <= k < sections.len() && sections[k] == section;
            if k < rest.len() {
                assert(rest[k] == section);
            }
        }
        if rest.contains(section) {
            let k = choose|k: int| 0 <= k < rest.len() && rest[k] == section;
            assert(sections[k] == section);
        }
        assert(sections[sections.len() - 1] == last);
        if !skipped.contains(last) {
            assert(now.last() == last);
            assert(now[now.len() - 1] == last);
            if before.contains(section) {
                let j = choose|j: int| 0 <= j < before.len() && before[j] == section;
                assert(now[j] == section);
            }
            if now.contains(section) {
                let j = choose|j: int| 0 <= j < now.len() && now[j] == section;
                if j < before.len() {
                    assert(before[j] == section);
                }
            }
        }
    }
}

/// The lines of a part begin with its title and end with a blank one, and what is said of the
/// part stands between them.
pub proof fn law_section_lines(header: Seq<char>, duration_ms: u128, execution: SectionExecution)
    ensures
        ({
            let lines = section_lines(header, duration_ms, execution);
            &&& lines[0] == "=== "@ + header + " ==="@
            &&& lines.last().len() == 0
            &&& lines.contains(
                "status: "@ + execution.word() + " ("@ + decimal(duration_ms as nat) + " ms)"@,
            )
            &&& lines.len() == (if execution.note() is Some {
                4int
            } else {
                3int
            })
            &&& execution matches SectionExecution::Success { message: Some(m) } ==> lines[1] == m@
            &&& execution matches SectionExecution::Skipped { reason: Some(m) } ==> lines[2]
                == "reason: "@ + m@
            &&& execution matches SectionExecution::Failed { error } ==> lines[2] == "error: "@
                + error@
        }),
        execution.word() == (match execution {
            SectionExecution::Success { .. } => "success"@,
            SectionExecution::Skipped { .. } => "skipped"@,
            SectionExecution::Failed { .. } => "failed"@,
        }),
{
    let lines = section_lines(header, duration_ms, execution);
    let status = status_line(execution.word(), duration_ms);
    if execution is Success && execution.note() is Some {
        assert(lines[2] == status);
    } else {
        assert(lines[1] == status);
    }
}

/// The file that is named is tried first, what a search found next, best first, and the
/// common files last.
pub proof fn law_bundle_candidates(named: Seq<char>, found: Seq<Seq<char>>)
    ensures
        candidates_of(Some(named), found) == seq![named] + candidates_of(None, found),
        found.is_prefix_of(candidates_of(None, found)),
        candidates_of(None, found).len() == found.len() + 2,
        candidates_of(None, found).last() == "README.md"@,
{
    let c = candidates_of(None, found);
    assert(candidates_of(Some(named), found) =~= seq![named] + c);
    assert(c.subrange(0, found.len() as int) =~= found);
}

/// The lines of the suggestions show the best ones, in their order, and at most three.
pub proof fn law_suggestion_lines(tools: Seq<SuggestedTool>, i: int)
    ensures
        tools.len() == 0 ==> lines_of_suggestions(tools).len() == 0,
        tools.len() > 0 ==> lines_of_suggestions(tools).len() == 1 + (if tools.len() < 3 {
            tools.len() as int
        } else {
            3
        }),
        0 <= i < tools.len() && i < 3 ==> ("  "@ + tools[i].tool@ + "#"@ + decimal(
            tools[i].rank as nat,
        )).is_prefix_of(lines_of_suggestions(tools)[i + 1]),
{
    if 0 <= i < tools.len() && i < 3 {
        let line = suggestion_line(tools[i]);
        let head = "  "@ + tools[i].tool@ + "#"@ + decimal(tools[i].rank as nat);
        let about = match tools[i].description {
            Some(text) => text@,
            None => "search match"@,
        };
        let a = head + " -> "@ + about;
        let b = a + " (score "@ + score_text(tools[i].score) + ")"@;
        let note = preview_note(text_of(tools[i].preview));
        assert(line == b + note);
        assert(a.subrange(0, head.len() as int) =~= head);
        assert(b.subrange(0, a.len() as int) =~= a);
        assert(line.subrange(0, b.len() as int) =~= b);
        assert(line.subrange(0, head.len() as int) =~= head) by {
            assert forall|k: int| 0 <= k < head.len() implies line[k] == head[k] by {
                assert(line.subrange(0, b.len() as int)[k] == line[k]);
                assert(b.subrange(0, a.len() as int)[k] == b[k]);
                assert(a.subrange(0, head.len() as int)[k] == a[k]);
            }
        }
    }
}

/// A preview on one line has no line feed and no white space at its ends; nothing is said of
/// one that is blank.
pub proof fn law_flat_preview(preview: Seq<char>)
    ensures
        !flat_preview(preview).contains('\n'),
        trimmed(preview).len() == 0 <==> preview_note(Some(preview)).len() == 0,
        preview_note(None).len() == 0,
        trimmed(preview).len() > 0 ==> " — "@.is_prefix_of(preview_note(Some(preview))),
{
    reveal_strlit(" — ");
    let r = replaced_char(preview, '\n', ' ');
    crate::text::law_trimmed(r);
    let (a, b) = choose|a: int, b: int|
        {
            &&& 0 <= a <= b <= r.len()
            &&& trimmed(r) == #[trigger] r.subrange(a, b)
            &&& forall|i: int| 0 <= i < a ==> crate::text::is_white_space(r[i])
            &&& forall|i: int| b <= i < r.len() ==> crate::text::is_white_space(r[i])
            &&& a < b ==> !crate::text::is_white_space(r[a]) && !crate::text::is_white_space(
                r[b - 1],
            )
        };
    let flat = flat_preview(preview);
    assert(forall|i: int| 0 <= i < flat.len() ==> #[trigger] flat[i] == r[a + i]);
    crate::text::lemma_trimmed(preview);
    crate::text::lemma_trimmed(r);
    assert(r.len() == preview.len());
    assert(forall|i: int|
        0 <= i < r.len() ==> (crate::text::is_white_space(#[trigger] r[i])
            <==> crate::text::is_white_space(preview[i])));
    lemma_not_blank(preview);
    lemma_not_blank(r);
    if trimmed(preview).len() == 0 {
        assert(forall|i: int| 0 <= i < r.len() ==> crate::text::is_white_space(#[trigger] r[i]));
    } else {
        let k = choose|k: int|
            0 <= k < preview.len() && !crate::text::is_white_space(#[trigger] preview[k]);
        assert(!crate::text::is_white_space(r[k]));
        let note = preview_note(Some(preview));
        assert(note.subrange(0, " — "@.len() as int) =~= " — "@);
    }
}

proof fn lemma_not_blank(s: Seq<char>)
    ensures
        trimmed(s).len() > 0 ==> exists|k: int|
            0 <= k < s.len() && !crate::text::is_white_space(#[trigger] s[k]),
        (exists|k: int| 0 <= k < s.len() && !crate::text::is_white_space(#[trigger] s[k]))
            ==> trimmed(s).len() > 0,
{
    crate::text::lemma_trimmed(s);
    crate::text::law_trimmed(s);
    let (a, b) = choose|a: int, b: int|
        {
            &&& 0 <= a <= b <= s.len()
            &&& trimmed(s) == #[trigger] s.subrange(a, b)
            &&& forall|i: int| 0 <= i < a ==> crate::text::is_white_space(s[i])
            &&& forall|i: int| b <= i < s.len() ==> crate::text::is_white_space(s[i])
            &&& a < b ==> !crate::text::is_white_space(s[a]) && !crate::text::is_white_space(
                s[b - 1],
            )
        };
    if trimmed(s).len() > 0 {
        assert(!crate::text::is_white_space(s[a]));
    }
}

/// A bundle is about the definition in its focus, else about its first one.
pub proof fn law_main_definition(b: ContextBundleResponse)
    ensures
        b.focus_definition is Some ==> main_definition(b) == b.focus_definition,
        b.focus_definition is None && b.definitions@.len() > 0 ==> main_definition(b) == Some(
            b.definitions@[0],
        ),
        b.focus_definition is None && b.definitions@.len() == 0 ==> main_definition(b) is None,
{
}

/// What is said of a bundle: its counts, what it is about, its file, and its tokens, and at
/// the end that it was kept, where it was.
pub proof fn law_bundle_lines(b: ContextBundleResponse)
    ensures
        ({
            let lines = bundle_lines(b);
            let a: int = if main_definition(b) is Some {
                1
            } else {
                0
            };
            let c: int = if b.file.brief is Some {
                1
            } else {
                0
            };
            &&& lines.len() == 3 + a + c + (if b.usage.cache_hit {
                1int
            } else {
                0int
            })
            &&& main_definition(b) matches Some(d) ==> lines[1] == "focus symbol: "@ + d.name@
                + " ("@ + d.kind@ + ")"@
            &&& lines[1 + a] == "file: "@ + b.file.path@
            &&& b.file.brief matches Some(t) ==> lines[2 + a] == "brief: "@ + t@
            &&& lines[2 + a + c] == "tokens: "@ + decimal(b.usage.used_tokens as nat)
                + " used of "@ + decimal(b.usage.budget_tokens as nat) + " ("@ + decimal(
                b.usage.remaining_tokens as nat,
            ) + " unused), summaries="@ + decimal(b.usage.summary_snippets as nat)
                + ", excerpts="@ + decimal(b.usage.excerpt_snippets as nat)
            &&& b.usage.cache_hit ==> lines.last() == "cache-hit: true"@
        }),
        truth_word(true) == "true"@,
        truth_word(false) == "false"@,
{
}

/// A report stops at a failure, and only where that is wanted.
pub proof fn law_goes_on(execution: &SectionExecution, fail_fast: bool, answer: bool)
    requires
        call_ensures(goes_on, (execution, fail_fast), answer),
    ensures
        !fail_fast ==> answer,
        !(*execution is Failed) ==> answer,
        fail_fast && *execution is Failed ==> !answer,
{
}

} // verus!
