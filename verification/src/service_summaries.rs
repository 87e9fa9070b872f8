//! What the answer of a tool says in one line.

use vstd::prelude::*;
use vstd::slice::slice_subrange;
use crate::bundle::{
    BundleDefinition, BundleSnippet, ContextBundleQuickLink, ContextBundleResponse,
    NeighborDirection, QuickLinkType, SnippetSource,
};
use crate::bundle_budget::{estimate_tokens, tokens_of};
use crate::bundle_graph::text_of;
use crate::decimal::{decimal, push_decimal, push_signed_decimal, signed_decimal};
use crate::doubles::{
    format_bytes, push_seconds, push_signed_seconds, seconds_text, signed_seconds_text, size_text,
};
use crate::git_timeline::{
    append_texts, RepositoryTimelineEntryLookupResponse, RepositoryTimelineResponse,
};
use crate::index_status::{IndexStatusIngestion, IndexStatusResponse};
use crate::ingest::{EvictionReport, IngestResponse};
use crate::paths::{below_any, file_name, file_name_of, strip_prefix};
use crate::pieces::{join, joined, lines_of, push_text, str_lines, texts};
use crate::search::{
    Classification, ContextGoal, SearchSource, SemanticSearchMatch, SemanticSearchResponse,
    SummaryMode,
};
use crate::search_results::{search_summary, summarize_semantic_search};
use crate::service_state::{smaller_of, EnvironmentSnapshot};
use crate::service_suggest::{short_line, truncate_summary_line};
use crate::sizes::{byte_length, utf8_size};
use crate::text::{chars_of, string_of, trim_str, trimmed};

verus! {

/// The most characters of a line of documentation.
pub const MAX_DOC_LINE: usize = 96;

/// How many snippets a summary describes.
pub const MAX_DESCRIBED_SNIPPETS: usize = 3;

/// How many characters of a commit's hash are shown.
pub const SHORT_SHA: usize = 7;

// ---------------------------------------------------------------------------
// Ingestion
// ---------------------------------------------------------------------------

/// What is said of the embedding model.
pub open spec fn model_note(model: Option<Seq<char>>) -> Seq<char> {
    match model {
        Some(m) => " Embedding model "@ + m + "."@,
        None => Seq::empty(),
    }
}

/// What is said of the files that had not changed.
pub open spec fn reuse_note(reused: Option<usize>) -> Seq<char> {
    match reused {
        Some(n) => " Reused cached embeddings for "@ + decimal(n as nat) + " unchanged file(s)."@,
        None => Seq::empty(),
    }
}

/// What is said of the files that were left out.
pub open spec fn skip_note(count: nat) -> Seq<char> {
    if count == 0 {
        Seq::empty()
    } else {
        " Skipped "@ + decimal(count) + " file(s)."@
    }
}

/// What is said of the files that are gone.
pub open spec fn removal_note(count: nat) -> Seq<char> {
    if count == 0 {
        Seq::empty()
    } else {
        " Removed "@ + decimal(count) + " stale entr"@ + (if count == 1 {
            "y"@
        } else {
            "ies"@
        }) + "."@
    }
}

/// What is said of what was taken out to make room.
pub open spec fn eviction_note(evicted: Option<EvictionReport>) -> Seq<char> {
    match evicted {
        Some(e) => " Evicted "@ + decimal(e.evicted_chunks as nat) + " chunk(s) and "@ + decimal(
            e.evicted_nodes as nat,
        ) + " node(s) to control database size."@,
        None => Seq::empty(),
    }
}

/// An ingestion in one line.
pub open spec fn ingest_summary(p: IngestResponse) -> Seq<char> {
    "Indexed "@ + decimal(p.ingested_file_count as nat) + " file(s) ("@ + decimal(
        p.embedded_chunk_count as nat,
    ) + " chunk(s)) at "@ + p.root@ + " in "@ + seconds_text(p.duration_ms as nat)
        + "s. Database size is "@ + size_text(p.database_size_bytes) + "."@ + model_note(
        text_of(p.embedding_model),
    ) + reuse_note(p.reused_file_count) + skip_note(p.skipped@.len()) + removal_note(
        p.deleted_paths@.len(),
    ) + eviction_note(p.evicted)
}

fn push_model_note(out: &mut String, model: &Option<String>)
    ensures
        final(out)@ == old(out)@ + model_note(text_of(*model)),
{
    let ghost before = out@;
    if let Some(m) = model {
        out.append(" Embedding model ");
        out.append(m.as_str());
        out.append(".");
    }
    assert(out@ =~= before + model_note(text_of(*model)));
}

fn push_reuse_note(out: &mut String, reused: Option<usize>)
    ensures
        final(out)@ == old(out)@ + reuse_note(reused),
{
    let ghost before = out@;
    if let Some(n) = reused {
        out.append(" Reused cached embeddings for ");
        push_decimal(out, n as u64);
        out.append(" unchanged file(s).");
    }
    assert(out@ =~= before + reuse_note(reused));
}

fn push_skip_note(out: &mut String, count: usize)
    ensures
        final(out)@ == old(out)@ + skip_note(count as nat),
{
    let ghost before = out@;
    if count > 0 {
        out.append(" Skipped ");
        push_decimal(out, count as u64);
        out.append(" file(s).");
    }
    assert(out@ =~= before + skip_note(count as nat));
}

fn push_removal_note(out: &mut String, count: usize)
    ensures
        final(out)@ == old(out)@ + removal_note(count as nat),
{
    let ghost before = out@;
    if count > 0 {
        out.append(" Removed ");
        push_decimal(out, count as u64);
        out.append(" stale entr");
        if count == 1 {
            out.append("y");
        } else {
            out.append("ies");
        }
        out.append(".");
    }
    assert(out@ =~= before + removal_note(count as nat));
}

fn push_eviction_note(out: &mut String, evicted: &Option<EvictionReport>)
    ensures
        final(out)@ == old(out)@ + eviction_note(*evicted),
{
    let ghost before = out@;
    if let Some(e) = evicted {
        out.append(" Evicted ");
        push_decimal(out, e.evicted_chunks as u64);
        out.append(" chunk(s) and ");
        push_decimal(out, e.evicted_nodes as u64);
        out.append(" node(s) to control database size.");
    }
    assert(out@ =~= before + eviction_note(*evicted));
}

/// An ingestion in one line.
pub fn summarize_ingest(payload: &IngestResponse) -> (r: String)
    ensures
        r@ == ingest_summary(*payload),
{
    let mut out = "Indexed ".to_owned();
    push_decimal(&mut out, payload.ingested_file_count as u64);
    out.append(" file(s) (");
    push_decimal(&mut out, payload.embedded_chunk_count as u64);
    out.append(" chunk(s)) at ");
    out.append(payload.root.as_str());
    out.append(" in ");
    push_seconds(&mut out, payload.duration_ms);
    out.append("s. Database size is ");
    let size = format_bytes(payload.database_size_bytes);
    out.append(size.as_str());
    out.append(".");
    push_model_note(&mut out, &payload.embedding_model);
    push_reuse_note(&mut out, payload.reused_file_count);
    push_skip_note(&mut out, payload.skipped.len());
    push_removal_note(&mut out, payload.deleted_paths.len());
    push_eviction_note(&mut out, &payload.evicted);
    out
}

// ---------------------------------------------------------------------------
// State of the index
// ---------------------------------------------------------------------------

/// The first characters of a commit's hash.
pub open spec fn short_hash(sha: Seq<char>) -> Seq<char> {
    if sha.len() <= SHORT_SHA {
        sha
    } else {
        sha.take(SHORT_SHA as int)
    }
}

/// The first characters of a commit's hash.
pub fn short_sha(sha: &str) -> (r: String)
    ensures
        r@ == short_hash(sha@),
{
    let chars = chars_of(sha);
    if chars.len() <= SHORT_SHA {
        return string_of(chars.as_slice());
    }
    let head = slice_subrange(chars.as_slice(), 0, SHORT_SHA);
    assert(head@ =~= sha@.take(SHORT_SHA as int));
    string_of(head)
}

/// A commit as it is shown.
pub open spec fn commit_name(sha: Option<Seq<char>>) -> Seq<char> {
    match sha {
        Some(s) => short_hash(s),
        None => "unknown"@,
    }
}

fn name_commit(sha: &Option<String>) -> (r: String)
    ensures
        r@ == commit_name(text_of(*sha)),
{
    match sha {
        Some(s) => short_sha(s.as_str()),
        None => "unknown".to_owned(),
    }
}

/// What is said of the size of the database.
pub open spec fn size_note(size: Option<u64>) -> Seq<char> {
    match size {
        Some(n) => " Size "@ + size_text(n) + "."@,
        None => Seq::empty(),
    }
}

/// What is said of the last ingestion.
pub open spec fn history_note(latest: Option<IndexStatusIngestion>) -> Seq<char> {
    match latest {
        Some(l) => " Last ingest processed "@ + signed_decimal(l.file_count as int)
            + " file(s) in "@ + signed_seconds_text(l.duration_ms as int) + "s."@,
        None => " No ingestion history recorded yet."@,
    }
}

/// What is said of the commit that was indexed.
pub open spec fn commit_note(
    stale: bool,
    indexed: Option<Seq<char>>,
    current: Option<Seq<char>>,
) -> Seq<char> {
    if stale {
        " Index is stale (stored "@ + commit_name(indexed) + " vs. workspace "@ + commit_name(
            current,
        ) + ")."@
    } else {
        match indexed {
            Some(sha) => " Index aligned with commit "@ + short_hash(sha) + "."@,
            None => Seq::empty(),
        }
    }
}

/// What is said of the models of the embeddings.
pub open spec fn models_note(models: Seq<Seq<char>>) -> Seq<char> {
    if models.len() == 0 {
        Seq::empty()
    } else {
        " Embedding models: "@ + joined(models, ", "@) + "."@
    }
}

/// The state of an index in one line.
pub open spec fn status_summary(p: IndexStatusResponse) -> Seq<char> {
    if !p.database_exists {
        "SQLite index not found at "@ + p.database_path@
            + ". Run ingest_codebase to create it."@
    } else {
        "Database "@ + p.database_path@ + " tracks "@ + decimal(p.total_files as nat)
            + " file(s) and "@ + decimal(p.total_chunks as nat) + " chunk(s)."@ + size_note(
            p.database_size_bytes,
        ) + history_note(p.latest_ingestion) + commit_note(
            p.is_stale,
            text_of(p.commit_sha),
            text_of(p.current_commit_sha),
        ) + models_note(texts(p.embedding_models@))
    }
}

fn push_size_note(out: &mut String, size: Option<u64>)
    ensures
        final(out)@ == old(out)@ + size_note(size),
{
    let ghost before = out@;
    if let Some(n) = size {
        out.append(" Size ");
        let text = format_bytes(n);
        out.append(text.as_str());
        out.append(".");
    }
    assert(out@ =~= before + size_note(size));
}

fn push_history_note(out: &mut String, latest: &Option<IndexStatusIngestion>)
    ensures
        final(out)@ == old(out)@ + history_note(*latest),
{
    let ghost before = out@;
    match latest {
        Some(l) => {
            out.append(" Last ingest processed ");
            push_signed_decimal(out, l.file_count);
            out.append(" file(s) in ");
            push_signed_seconds(out, l.duration_ms);
            out.append("s.");
        },
        None => {
            out.append(" No ingestion history recorded yet.");
        },
    }
    assert(out@ =~= before + history_note(*latest));
}

fn push_commit_note(out: &mut String, stale: bool, indexed: &Option<String>, current: &Option<String>)
    ensures
        final(out)@ == old(out)@ + commit_note(stale, text_of(*indexed), text_of(*current)),
{
    let ghost before = out@;
    if stale {
        let stored = name_commit(indexed);
        let here = name_commit(current);
        out.append(" Index is stale (stored ");
        out.append(stored.as_str());
        out.append(" vs. workspace ");
        out.append(here.as_str());
        out.append(").");
    } else if let Some(sha) = indexed {
        let short = short_sha(sha.as_str());
        out.append(" Index aligned with commit ");
        out.append(short.as_str());
        out.append(".");
    }
    assert(out@ =~= before + commit_note(stale, text_of(*indexed), text_of(*current)));
}

fn push_models_note(out: &mut String, models: &Vec<String>)
    ensures
        final(out)@ == old(out)@ + models_note(texts(models@)),
{
    let ghost before = out@;
    if models.len() > 0 {
        out.append(" Embedding models: ");
        let list = join(models.as_slice(), ", ");
        out.append(list.as_str());
        out.append(".");
    }
    assert(out@ =~= before + models_note(texts(models@)));
}

/// The state of an index in one line.
pub fn summarize_index_status(payload: &IndexStatusResponse) -> (r: String)
    ensures
        r@ == status_summary(*payload),
{
    if !payload.database_exists {
        let mut out = "SQLite index not found at ".to_owned();
        out.append(payload.database_path.as_str());
        out.append(". Run ingest_codebase to create it.");
        return out;
    }
    let mut out = "Database ".to_owned();
    out.append(payload.database_path.as_str());
    out.append(" tracks ");
    push_decimal(&mut out, payload.total_files);
    out.append(" file(s) and ");
    push_decimal(&mut out, payload.total_chunks);
    out.append(" chunk(s).");
    push_size_note(&mut out, payload.database_size_bytes);
    push_history_note(&mut out, &payload.latest_ingestion);
    push_commit_note(
        &mut out,
        payload.is_stale,
        &payload.commit_sha,
        &payload.current_commit_sha,
    );
    push_models_note(&mut out, &payload.embedding_models);
    out
}

/// An ingestion and the state of the index after it, in one line.
pub fn summarize_ingest_with_status(ingest: &IngestResponse, status: &IndexStatusResponse) -> (r:
    String)
    ensures
        r@ == ingest_summary(*ingest) + " "@ + status_summary(*status),
{
    let mut out = summarize_ingest(ingest);
    out.append(" ");
    let rest = summarize_index_status(status);
    out.append(rest.as_str());
    out
}

/// The name of the database that was filled: the one that the caller gave, else the path
/// below the root, else the name of the file.
pub open spec fn status_database_name(
    root: Seq<char>,
    database_path: Seq<char>,
    given: Option<Seq<char>>,
) -> Option<Seq<char>> {
    match given {
        Some(name) => Some(name),
        None => match below_any(root, database_path) {
            Some(rest) => if rest.len() > 0 {
                Some(rest)
            } else {
                file_name_of(database_path)
            },
            None => file_name_of(database_path),
        },
    }
}

/// The name of the database that was filled, to ask for its state.
pub fn derive_database_name_for_status(ingest: &IngestResponse, original: Option<String>) -> (r:
    Option<String>)
    ensures
        text_of(r) == status_database_name(
            ingest.root@,
            ingest.database_path@,
            text_of(original),
        ),
{
    if let Some(name) = original {
        return Some(name);
    }
    if let Some(rest) = strip_prefix(ingest.root.as_str(), ingest.database_path.as_str()) {
        if !rest.as_str().is_empty() {
            return Some(rest);
        }
    }
    file_name(ingest.database_path.as_str())
}

// ---------------------------------------------------------------------------
// Bundles
// ---------------------------------------------------------------------------

/// The first line of a documentation that is not blank, without white space around it.
pub open spec fn first_filled_line(ls: Seq<Seq<char>>) -> Option<Seq<char>>
    decreases ls.len(),
{
    if ls.len() == 0 {
        None
    } else if trimmed(ls[0]).len() > 0 {
        Some(trimmed(ls[0]))
    } else {
        first_filled_line(ls.drop_first())
    }
}

fn find_filled_line(ls: &Vec<String>) -> (r: Option<String>)
    ensures
        text_of(r) == first_filled_line(texts(ls@)),
{
    let ghost all = texts(ls@);
    let mut i: usize = 0;
    assert(all.skip(0) =~= all);
    while i < ls.len()
        invariant
            i <= ls@.len(),
            all == texts(ls@),
            first_filled_line(all) == first_filled_line(all.skip(i as int)),
        decreases ls.len() - i,
    {
        let line = trim_str(ls[i].as_str());
        assert(all.skip(i as int)[0] == ls@[i as int]@);
        assert(all.skip(i as int).drop_first() =~= all.skip(i + 1));
        if !line.as_str().is_empty() {
            return Some(line);
        }
        i += 1;
    }
    assert(all.skip(i as int) =~= Seq::<Seq<char>>::empty());
    None
}

/// What is said of a definition's visibility.
pub open spec fn visibility_part(visibility: Option<Seq<char>>) -> Seq<Seq<char>> {
    match visibility {
        Some(v) => if trimmed(v).len() > 0 {
            seq!["visibility "@ + trimmed(v)]
        } else {
            Seq::empty()
        },
        None => Seq::empty(),
    }
}

/// What is said of a definition's documentation.
pub open spec fn doc_part(docstring: Option<Seq<char>>) -> Seq<Seq<char>> {
    match docstring {
        Some(d) => match first_filled_line(lines_of(d)) {
            Some(line) => seq!["doc "@ + short_line(line, MAX_DOC_LINE as int)],
            None => Seq::empty(),
        },
        None => Seq::empty(),
    }
}

/// What is said of a definition besides its kind and name.
pub open spec fn definition_details(d: BundleDefinition) -> Option<Seq<char>> {
    let parts = visibility_part(text_of(d.visibility)) + doc_part(text_of(d.docstring));
    if parts.len() == 0 {
        None
    } else {
        Some("Details: "@ + joined(parts, "; "@) + "."@)
    }
}

/// What is said of a definition besides its kind and name.
pub fn summarize_definition_metadata(definition: &BundleDefinition) -> (r: Option<String>)
    ensures
        text_of(r) == definition_details(*definition),
{
    let mut parts: Vec<String> = Vec::new();
    if let Some(visibility) = &definition.visibility {
        let text = trim_str(visibility.as_str());
        if !text.as_str().is_empty() {
            let mut part = "visibility ".to_owned();
            part.append(text.as_str());
            push_text(&mut parts, part);
        }
    }
    assert(texts(parts@) =~= visibility_part(text_of(definition.visibility)));
    let ghost first = texts(parts@);
    if let Some(docstring) = &definition.docstring {
        let lines = str_lines(docstring.as_str());
        if let Some(line) = find_filled_line(&lines) {
            let short = truncate_summary_line(line.as_str(), MAX_DOC_LINE);
            let mut part = "doc ".to_owned();
            part.append(short.as_str());
            push_text(&mut parts, part);
        }
    }
    assert(texts(parts@) =~= first + doc_part(text_of(definition.docstring)));
    if parts.len() == 0 {
        return None;
    }
    let list = join(parts.as_slice(), "; ");
    let mut out = "Details: ".to_owned();
    out.append(list.as_str());
    out.append(".");
    Some(out)
}

/// Where a snippet stands.
pub open spec fn span_text(start: Option<i64>, end: Option<i64>) -> Seq<char> {
    match start {
        Some(a) => match end {
            Some(b) => if a == b {
                "line "@ + signed_decimal(a as int)
            } else {
                "lines "@ + signed_decimal(a as int) + "-"@ + signed_decimal(b as int)
            },
            None => "line "@ + signed_decimal(a as int),
        },
        None => "lines n/a"@,
    }
}

/// A snippet in a few words.
pub open spec fn snippet_words(s: BundleSnippet) -> Seq<char> {
    (match s.source {
        SnippetSource::Chunk => "chunk"@,
        SnippetSource::Content => "content"@,
    }) + " "@ + span_text(s.line_start, s.line_end)
}

fn describe_snippet(s: &BundleSnippet) -> (r: String)
    ensures
        r@ == snippet_words(*s),
{
    let mut out = snippet_source_name(s.source).to_owned();
    out.append(" ");
    let ghost before = out@;
    match s.line_start {
        Some(a) => match s.line_end {
            Some(b) => if a == b {
                out.append("line ");
                push_signed_decimal(&mut out, a);
            } else {
                out.append("lines ");
                push_signed_decimal(&mut out, a);
                out.append("-");
                push_signed_decimal(&mut out, b);
            },
            None => {
                out.append("line ");
                push_signed_decimal(&mut out, a);
            },
        },
        None => {
            out.append("lines n/a");
        },
    }
    assert(out@ =~= before + span_text(s.line_start, s.line_end));
    out
}

/// The tokens of the first `n` snippets, as a machine word holds them.
pub open spec fn snippet_tokens(snippets: Seq<BundleSnippet>, n: int) -> usize
    decreases n,
{
    if n <= 0 {
        0
    } else {
        snippet_tokens(snippets, n - 1).wrapping_add(
            tokens_of(snippets[n - 1].content@) as usize,
        )
    }
}

/// The first snippets in a few words each.
pub open spec fn described(snippets: Seq<BundleSnippet>) -> Seq<Seq<char>> {
    Seq::new(
        smaller_of(snippets.len() as int, MAX_DESCRIBED_SNIPPETS as int) as nat,
        |i: int| snippet_words(snippets[i]),
    )
}

/// The first snippets in a few words each, and how many more there are.
pub open spec fn snippet_list(snippets: Seq<BundleSnippet>) -> Seq<Seq<char>> {
    if snippets.len() > MAX_DESCRIBED_SNIPPETS {
        described(snippets).push(
            "+"@ + decimal((snippets.len() - MAX_DESCRIBED_SNIPPETS) as nat) + " more"@,
        )
    } else {
        described(snippets)
    }
}

/// What is said of the snippets.
pub open spec fn snippets_note(snippets: Seq<BundleSnippet>) -> Option<Seq<char>> {
    if snippets.len() == 0 {
        None
    } else {
        Some(
            "Snippets: "@ + joined(snippet_list(snippets), ", "@) + " (~"@ + decimal(
                snippet_tokens(snippets, snippets.len() as int) as nat,
            ) + " token(s))."@,
        )
    }
}

/// What is said of the snippets; `None` where there are none.
pub fn summarize_snippets(bundle: &ContextBundleResponse) -> (r: Option<String>)
    ensures
        text_of(r) == snippets_note(bundle.snippets@),
{
    let snippets = &bundle.snippets;
    if snippets.len() == 0 {
        return None;
    }
    let mut tokens: usize = 0;
    let mut words: Vec<String> = Vec::new();
    let mut i: usize = 0;
    assert(texts(words@) =~= described(snippets@).take(0));
    while i < snippets.len()
        invariant
            i <= snippets@.len(),
            tokens == snippet_tokens(snippets@, i as int),
            texts(words@) == described(snippets@).take(
                smaller_of(i as int, MAX_DESCRIBED_SNIPPETS as int),
            ),
        decreases snippets.len() - i,
    {
        let size: usize = estimate_tokens(snippets[i].content.as_str());
        tokens = tokens.wrapping_add(size);
        if i < MAX_DESCRIBED_SNIPPETS {
            let text = describe_snippet(&snippets[i]);
            push_text(&mut words, text);
            assert(texts(words@) =~= described(snippets@).take(i + 1));
        }
        i += 1;
    }
    assert(described(snippets@).take(
        smaller_of(i as int, MAX_DESCRIBED_SNIPPETS as int),
    ) =~= described(snippets@));
    if snippets.len() > MAX_DESCRIBED_SNIPPETS {
        let mut more = "+".to_owned();
        push_decimal(&mut more, (snippets.len() - MAX_DESCRIBED_SNIPPETS) as u64);
        more.append(" more");
        push_text(&mut words, more);
    }
    assert(texts(words@) =~= snippet_list(snippets@));
    let list = join(words.as_slice(), ", ");
    let mut out = "Snippets: ".to_owned();
    out.append(list.as_str());
    out.append(" (~");
    push_decimal(&mut out, tokens as u64);
    out.append(" token(s)).");
    Some(out)
}

/// The text as a list.
pub open spec fn listed(text: Option<Seq<char>>) -> Seq<Seq<char>> {
    match text {
        Some(t) => seq![t],
        None => Seq::empty(),
    }
}

/// What is said of the definition that matters most.
pub open spec fn definition_parts(b: ContextBundleResponse) -> Seq<Seq<char>> {
    match b.focus_definition {
        Some(focus) => seq!["Focus on "@ + focus.kind@ + " "@ + focus.name@ + "."@] + listed(
            definition_details(focus),
        ),
        None => if b.definitions@.len() > 0 {
            let primary = b.definitions@[0];
            seq!["Primary definition "@ + primary.kind@ + " "@ + primary.name@ + "."@] + listed(
                definition_details(primary),
            )
        } else {
            Seq::empty()
        },
    }
}

/// What is said of the first link.
pub open spec fn link_parts(links: Seq<ContextBundleQuickLink>) -> Seq<Seq<char>> {
    if links.len() == 0 {
        Seq::empty()
    } else {
        seq!["First quick link: "@ + (match links[0].kind {
            QuickLinkType::File => "file "@,
            QuickLinkType::RelatedSymbol => "symbol "@,
        }) + links[0].label@ + "."@]
    }
}

/// What is said of the cache.
pub open spec fn cache_parts(hit: bool) -> Seq<Seq<char>> {
    if hit {
        seq!["Served from cache."@]
    } else {
        Seq::empty()
    }
}

/// What is said of the warnings.
pub open spec fn warning_parts(warnings: Seq<Seq<char>>) -> Seq<Seq<char>> {
    if warnings.len() == 0 {
        Seq::empty()
    } else if warnings.len() > 1 {
        seq!["Warnings: "@ + decimal(warnings.len()) + " (first: "@ + warnings[0] + ")."@]
    } else {
        seq!["Warning: "@ + warnings[0] + "."@]
    }
}

/// What is said first of a bundle.
pub open spec fn bundle_head(b: ContextBundleResponse) -> Seq<char> {
    "Context bundle prepared for "@ + b.file.path@ + " with "@ + decimal(b.definitions@.len())
        + " definition(s) and "@ + decimal(b.snippets@.len()) + " snippet(s)."@
}

/// What is said where there are no snippets.
pub const NO_SNIPPETS: &'static str =
    "Snippets: none captured; adjust selection or increase limits.";

/// What is said of the snippets, or that there are none.
pub open spec fn snippets_part(snippets: Seq<BundleSnippet>) -> Seq<char> {
    match snippets_note(snippets) {
        Some(text) => text,
        None => NO_SNIPPETS@,
    }
}

/// What is said of the tokens.
pub open spec fn usage_part(b: ContextBundleResponse) -> Seq<char> {
    "Token usage "@ + decimal(b.usage.used_tokens as nat) + " of "@ + decimal(
        b.usage.budget_tokens as nat,
    ) + " ("@ + decimal(b.usage.remaining_tokens as nat) + " unused)."@
}

/// A bundle in one line.
pub open spec fn bundle_summary(b: ContextBundleResponse) -> Seq<char> {
    joined(
        seq![bundle_head(b)] + definition_parts(b) + seq![snippets_part(b.snippets@)] + link_parts(
            b.quick_links@,
        ) + seq![usage_part(b)] + cache_parts(b.usage.cache_hit) + warning_parts(
            texts(b.warnings@),
        ),
        " "@,
    )
}

fn push_definition(out: &mut Vec<String>, lead: &str, definition: &BundleDefinition)
    ensures
        texts(final(out)@) == texts(old(out)@) + (seq![
            lead@ + definition.kind@ + " "@ + definition.name@ + "."@,
        ] + listed(definition_details(*definition))),
{
    let ghost before = texts(out@);
    let mut text = lead.to_owned();
    text.append(definition.kind.as_str());
    text.append(" ");
    text.append(definition.name.as_str());
    text.append(".");
    push_text(out, text);
    if let Some(details) = summarize_definition_metadata(definition) {
        push_text(out, details);
    }
    assert(texts(out@) =~= before + (seq![
        lead@ + definition.kind@ + " "@ + definition.name@ + "."@,
    ] + listed(definition_details(*definition))));
}

fn push_definition_parts(out: &mut Vec<String>, bundle: &ContextBundleResponse)
    ensures
        texts(final(out)@) == texts(old(out)@) + definition_parts(*bundle),
{
    let ghost before = texts(out@);
    match &bundle.focus_definition {
        Some(focus) => {
            push_definition(out, "Focus on ", focus);
        },
        None => {
            if bundle.definitions.len() > 0 {
                push_definition(out, "Primary definition ", &bundle.definitions[0]);
            } else {
                assert(texts(out@) =~= before + definition_parts(*bundle));
            }
        },
    }
}

fn push_link_parts(out: &mut Vec<String>, links: &Vec<ContextBundleQuickLink>)
    ensures
        texts(final(out)@) == texts(old(out)@) + link_parts(links@),
{
    let ghost before = texts(out@);
    if links.len() > 0 {
        let link = &links[0];
        let mut text = "First quick link: ".to_owned();
        match link.kind {
            QuickLinkType::File => text.append("file "),
            QuickLinkType::RelatedSymbol => text.append("symbol "),
        }
        text.append(link.label.as_str());
        text.append(".");
        push_text(out, text);
    }
    assert(texts(out@) =~= before + link_parts(links@));
}

fn push_warning_parts(out: &mut Vec<String>, warnings: &Vec<String>)
    ensures
        texts(final(out)@) == texts(old(out)@) + warning_parts(texts(warnings@)),
{
    let ghost before = texts(out@);
    if warnings.len() > 1 {
        let mut text = "Warnings: ".to_owned();
        push_decimal(&mut text, warnings.len() as u64);
        text.append(" (first: ");
        text.append(warnings[0].as_str());
        text.append(").");
        push_text(out, text);
    } else if warnings.len() == 1 {
        let mut text = "Warning: ".to_owned();
        text.append(warnings[0].as_str());
        text.append(".");
        push_text(out, text);
    }
    assert(texts(out@) =~= before + warning_parts(texts(warnings@)));
}

fn push_usage_parts(out: &mut Vec<String>, bundle: &ContextBundleResponse)
    ensures
        texts(final(out)@) == texts(old(out)@) + seq![usage_part(*bundle)] + cache_parts(
            bundle.usage.cache_hit,
        ),
{
    let ghost before = texts(out@);
    let mut text = "Token usage ".to_owned();
    push_decimal(&mut text, bundle.usage.used_tokens as u64);
    text.append(" of ");
    push_decimal(&mut text, bundle.usage.budget_tokens as u64);
    text.append(" (");
    push_decimal(&mut text, bundle.usage.remaining_tokens as u64);
    text.append(" unused).");
    push_text(out, text);
    if bundle.usage.cache_hit {
        push_text(out, "Served from cache.".to_owned());
    }
    assert(texts(out@) =~= before + seq![usage_part(*bundle)] + cache_parts(
        bundle.usage.cache_hit,
    ));
}

/// A bundle in one line.
pub fn summarize_bundle(bundle: &ContextBundleResponse) -> (r: String)
    ensures
        r@ == bundle_summary(*bundle),
{
    let mut parts: Vec<String> = Vec::new();
    let mut head = "Context bundle prepared for ".to_owned();
    head.append(bundle.file.path.as_str());
    head.append(" with ");
    push_decimal(&mut head, bundle.definitions.len() as u64);
    head.append(" definition(s) and ");
    push_decimal(&mut head, bundle.snippets.len() as u64);
    head.append(" snippet(s).");
    push_text(&mut parts, head);
    assert(texts(parts@) =~= seq![bundle_head(*bundle)]);
    push_definition_parts(&mut parts, bundle);
    let ghost before = texts(parts@);
    match summarize_snippets(bundle) {
        Some(text) => push_text(&mut parts, text),
        None => push_text(&mut parts, NO_SNIPPETS.to_owned()),
    }
    assert(texts(parts@) =~= before + seq![snippets_part(bundle.snippets@)]);
    push_link_parts(&mut parts, &bundle.quick_links);
    push_usage_parts(&mut parts, bundle);
    push_warning_parts(&mut parts, &bundle.warnings);
    join(parts.as_slice(), " ")
}

// ---------------------------------------------------------------------------
// Searches
// ---------------------------------------------------------------------------

/// The bytes of an optional text.
pub open spec fn optional_size(text: Option<Seq<char>>) -> usize {
    match text {
        Some(t) => utf8_size(t) as usize,
        None => 0,
    }
}

/// The bytes of a match and of the lines around it, as a machine word holds them.
pub open spec fn match_size(m: SemanticSearchMatch) -> usize {
    (utf8_size(m.content@) as usize).wrapping_add(
        optional_size(text_of(m.context_before)),
    ).wrapping_add(optional_size(text_of(m.context_after)))
}

/// The bytes of the first `n` matches, as a machine word holds them.
pub open spec fn total_size(results: Seq<SemanticSearchMatch>, n: int) -> usize
    decreases n,
{
    if n <= 0 {
        0
    } else {
        total_size(results, n - 1).wrapping_add(match_size(results[n - 1]))
    }
}

fn size_of_optional(text: &Option<String>) -> (r: usize)
    ensures
        r == optional_size(text_of(*text)),
{
    match text {
        Some(t) => byte_length(t.as_str()),
        None => 0,
    }
}

/// How many tokens the matches take: one for every four bytes, rounded up.
pub fn estimate_token_cost(results: &Vec<SemanticSearchMatch>) -> (r: usize)
    ensures
        r == (total_size(results@, results@.len() as int) + 3) / 4,
{
    let mut total: usize = 0;
    let mut i: usize = 0;
    while i < results.len()
        invariant
            i <= results@.len(),
            total == total_size(results@, i as int),
        decreases results.len() - i,
    {
        let before: usize = size_of_optional(&results[i].context_before);
        let after: usize = size_of_optional(&results[i].context_after);
        let size: usize = byte_length(results[i].content.as_str());
        total = total.wrapping_add(size.wrapping_add(before).wrapping_add(after));
        i += 1;
    }
    if total % 4 == 0 {
        total / 4
    } else {
        total / 4 + 1
    }
}

/// What a search says of itself besides its matches.
#[derive(Debug)]
pub struct SearchMeta {
    pub evaluated_chunks: u64,
    pub result_count: usize,
    pub summary_mode: SummaryMode,
    pub estimated_token_cost: usize,
    pub duplicates_filtered: usize,
    pub clarifications: Vec<String>,
    pub context_goals: Vec<ContextGoal>,
    pub remaining_context_tokens: Option<usize>,
}

/// What a search says of itself besides its matches.
pub fn build_search_meta(
    snapshot: &EnvironmentSnapshot,
    response: &SemanticSearchResponse,
    duplicates_filtered: usize,
) -> (r: SearchMeta)
    ensures
        r.evaluated_chunks == response.evaluated_chunks,
        r.result_count == response.results@.len(),
        r.summary_mode == response.summary_mode,
        r.estimated_token_cost == (total_size(
            response.results@,
            response.results@.len() as int,
        ) + 3) / 4,
        r.duplicates_filtered == duplicates_filtered,
        texts(r.clarifications@) == texts(response.clarification_prompts@),
        r.context_goals@ == response.context_goals@,
        r.remaining_context_tokens == snapshot.remaining_context_tokens,
{
    let mut clarifications: Vec<String> = Vec::new();
    append_texts(&mut clarifications, &response.clarification_prompts);
    assert(texts(clarifications@) =~= texts(response.clarification_prompts@));
    let mut context_goals: Vec<ContextGoal> = Vec::new();
    let goals = &response.context_goals;
    let mut i: usize = 0;
    assert(goals@.take(0) =~= context_goals@);
    while i < goals.len()
        invariant
            i <= goals@.len(),
            context_goals@ == goals@.take(i as int),
        decreases goals.len() - i,
    {
        assert(goals@.take(i + 1) =~= goals@.take(i as int).push(goals@[i as int]));
        context_goals.push(goals[i]);
        i += 1;
    }
    assert(goals@.take(i as int) =~= goals@);
    SearchMeta {
        evaluated_chunks: response.evaluated_chunks,
        result_count: response.results.len(),
        summary_mode: response.summary_mode,
        estimated_token_cost: estimate_token_cost(&response.results),
        duplicates_filtered,
        clarifications,
        context_goals,
        remaining_context_tokens: snapshot.remaining_context_tokens,
    }
}

/// What is said of the warnings of a search.
pub open spec fn warnings_line(warnings: Seq<Seq<char>>) -> Seq<Seq<char>> {
    if warnings.len() == 0 {
        Seq::empty()
    } else {
        seq!["Warnings: "@ + joined(warnings, "; "@)]
    }
}

/// A search with its attachments in a few lines: the search, what is said of the
/// attachments, and the warnings.
pub fn summarize_search_result(
    response: &SemanticSearchResponse,
    attachment_summaries: &Vec<String>,
    warnings: &Vec<String>,
) -> (r: String)
    ensures
        r@ == joined(
            seq![search_summary(*response)] + texts(attachment_summaries@) + warnings_line(
                texts(warnings@),
            ),
            "\n"@,
        ),
{
    let mut lines: Vec<String> = Vec::new();
    push_text(&mut lines, summarize_semantic_search(response));
    assert(texts(lines@) =~= seq![search_summary(*response)]);
    append_texts(&mut lines, attachment_summaries);
    let ghost before = texts(lines@);
    if warnings.len() > 0 {
        let list = join(warnings.as_slice(), "; ");
        let mut line = "Warnings: ".to_owned();
        line.append(list.as_str());
        push_text(&mut lines, line);
    }
    assert(texts(lines@) =~= before + warnings_line(texts(warnings@)));
    join(lines.as_slice(), "\n")
}

// ---------------------------------------------------------------------------
// Timelines
// ---------------------------------------------------------------------------

/// From when on.
pub open spec fn since_note(since: Option<Seq<char>>) -> Seq<char> {
    match since {
        Some(s) => " since "@ + s,
        None => Seq::empty(),
    }
}

/// What is said of the merges.
pub open spec fn merge_note(merges: nat) -> Seq<char> {
    if merges == 0 {
        Seq::empty()
    } else {
        " Includes "@ + decimal(merges) + " merge"@ + (if merges == 1 {
            ""@
        } else {
            "s"@
        }) + "."@
    }
}

/// What is said of the diffs.
pub open spec fn diffs_note(diffs: bool) -> Seq<char> {
    if diffs {
        " Diffs cached in SQLite; call repository_timeline_entry for full output."@
    } else {
        Seq::empty()
    }
}

/// A timeline in one line.
pub open spec fn timeline_summary(p: RepositoryTimelineResponse) -> Seq<char> {
    (if p.total_commits == 0 {
        "No commits matched the requested filters on "@ + p.branch@ + since_note(text_of(p.since))
            + "."@
    } else {
        "Latest "@ + decimal(p.total_commits as nat) + " "@ + (if p.total_commits == 1 {
            "commit"@
        } else {
            "commits"@
        }) + since_note(text_of(p.since)) + " on "@ + p.branch@ + "; "@ + signed_decimal(
            p.total_insertions as int,
        ) + " insertions / "@ + signed_decimal(p.total_deletions as int) + " deletions."@
            + merge_note(p.merge_commits as nat)
    }) + diffs_note(p.include_diffs)
}

fn push_since_note(out: &mut String, since: &Option<String>)
    ensures
        final(out)@ == old(out)@ + since_note(text_of(*since)),
{
    let ghost before = out@;
    if let Some(s) = since {
        out.append(" since ");
        out.append(s.as_str());
    }
    assert(out@ =~= before + since_note(text_of(*since)));
}

fn push_merge_note(out: &mut String, merges: usize)
    ensures
        final(out)@ == old(out)@ + merge_note(merges as nat),
{
    let ghost before = out@;
    if merges > 0 {
        out.append(" Includes ");
        push_decimal(out, merges as u64);
        out.append(" merge");
        if merges == 1 {
            out.append("");
        } else {
            out.append("s");
        }
        out.append(".");
    }
    assert(out@ =~= before + merge_note(merges as nat));
}

/// A timeline in one line.
pub fn summarize_timeline(response: &RepositoryTimelineResponse) -> (r: String)
    ensures
        r@ == timeline_summary(*response),
{
    let mut out = String::new();
    if response.total_commits == 0 {
        out.append("No commits matched the requested filters on ");
        out.append(response.branch.as_str());
        push_since_note(&mut out, &response.since);
        out.append(".");
        assert(out@ =~= "No commits matched the requested filters on "@ + response.branch@
            + since_note(text_of(response.since)) + "."@);
    } else {
        out = "Latest ".to_owned();
        push_decimal(&mut out, response.total_commits as u64);
        out.append(" ");
        if response.total_commits == 1 {
            out.append("commit");
        } else {
            out.append("commits");
        }
        push_since_note(&mut out, &response.since);
        out.append(" on ");
        out.append(response.branch.as_str());
        out.append("; ");
        push_signed_decimal(&mut out, response.total_insertions);
        out.append(" insertions / ");
        push_signed_decimal(&mut out, response.total_deletions);
        out.append(" deletions.");
        push_merge_note(&mut out, response.merge_commits);
    }
    let ghost before = out@;
    if response.include_diffs {
        out.append(" Diffs cached in SQLite; call repository_timeline_entry for full output.");
    }
    assert(out@ =~= before + diffs_note(response.include_diffs));
    out
}

/// One stored commit in one line.
pub open spec fn entry_summary(sha: Seq<char>, diff: Option<Seq<char>>) -> Seq<char> {
    match diff {
        Some(d) => if d.len() > 0 {
            "repository_timeline_entry: retrieved diff for commit "@ + sha + " ("@ + decimal(
                utf8_size(d),
            ) + " bytes cached)."@
        } else {
            "repository_timeline_entry: no diff stored for commit "@ + sha + "."@
        },
        None => "repository_timeline_entry: no diff stored for commit "@ + sha + "."@,
    }
}

/// One stored commit in one line.
pub fn summarize_timeline_entry(response: &RepositoryTimelineEntryLookupResponse) -> (r: String)
    ensures
        r@ == entry_summary(response.entry.sha@, text_of(response.diff)),
{
    if let Some(diff) = &response.diff {
        if !diff.as_str().is_empty() {
            let mut out = "repository_timeline_entry: retrieved diff for commit ".to_owned();
            out.append(response.entry.sha.as_str());
            out.append(" (");
            push_decimal(&mut out, byte_length(diff.as_str()) as u64);
            out.append(" bytes cached).");
            return out;
        }
    }
    let mut out = "repository_timeline_entry: no diff stored for commit ".to_owned();
    out.append(response.entry.sha.as_str());
    out.append(".");
    out
}

// ---------------------------------------------------------------------------
// Names
// ---------------------------------------------------------------------------

/// The kind of a match in one word.
pub fn classification_name(classification: Classification) -> (r: &'static str)
    ensures
        r@ == match classification {
            Classification::Function => "function"@,
            Classification::Comment => "comment"@,
            Classification::Code => "code"@,
        },
{
    match classification {
        Classification::Function => "function",
        Classification::Comment => "comment",
        Classification::Code => "code",
    }
}

/// How a match was found, in one word.
pub fn search_source_name(source: SearchSource) -> (r: &'static str)
    ensures
        r@ == match source {
            SearchSource::Embedding => "embedding"@,
            SearchSource::Lexical => "lexical"@,
        },
{
    match source {
        SearchSource::Embedding => "embedding",
        SearchSource::Lexical => "lexical",
    }
}

/// Which end of an edge, in one word.
pub fn neighbor_direction_name(direction: NeighborDirection) -> (r: &'static str)
    ensures
        r@ == match direction {
            NeighborDirection::Incoming => "in"@,
            NeighborDirection::Outgoing => "out"@,
        },
{
    match direction {
        NeighborDirection::Incoming => "in",
        NeighborDirection::Outgoing => "out",
    }
}

/// Where a snippet came from, in one word.
pub fn snippet_source_name(source: SnippetSource) -> (r: &'static str)
    ensures
        r@ == match source {
            SnippetSource::Chunk => "chunk"@,
            SnippetSource::Content => "content"@,
        },
{
    match source {
        SnippetSource::Chunk => "chunk",
        SnippetSource::Content => "content",
    }
}

/// What a link points to, in one word.
pub fn quick_link_type_name(kind: QuickLinkType) -> (r: &'static str)
    ensures
        r@ == match kind {
            QuickLinkType::File => "file"@,
            QuickLinkType::RelatedSymbol => "symbol"@,
        },
{
    match kind {
        QuickLinkType::File => "file",
        QuickLinkType::RelatedSymbol => "symbol",
    }
}

/// A note that counts says nothing of none, and of some it says how many.
pub proof fn law_counted_notes(n: nat)
    ensures
        skip_note(0).len() == 0 && removal_note(0).len() == 0 && merge_note(0).len() == 0,
        n > 0 ==> (" Skipped "@ + decimal(n)).is_prefix_of(skip_note(n)),
        n > 0 ==> (" Removed "@ + decimal(n) + " stale entr"@).is_prefix_of(removal_note(n)),
        n > 0 ==> (" Includes "@ + decimal(n) + " merge"@).is_prefix_of(merge_note(n)),
        removal_note(1) == " Removed "@ + decimal(1) + " stale entr"@ + "y"@ + "."@,
        n > 1 ==> removal_note(n) == " Removed "@ + decimal(n) + " stale entr"@ + "ies"@ + "."@,
        merge_note(1) == " Includes "@ + decimal(1) + " merge"@ + ""@ + "."@,
        n > 1 ==> merge_note(n) == " Includes "@ + decimal(n) + " merge"@ + "s"@ + "."@,
{
    if n > 0 {
        let a = " Skipped "@ + decimal(n);
        assert(skip_note(n).subrange(0, a.len() as int) =~= a);
        let b = " Removed "@ + decimal(n) + " stale entr"@;
        assert(removal_note(n).subrange(0, b.len() as int) =~= b);
        let c = " Includes "@ + decimal(n) + " merge"@;
        assert(merge_note(n).subrange(0, c.len() as int) =~= c);
    }
}

/// A note of what may be missing says nothing where it is, and shows it where it is not.
pub proof fn law_optional_notes(text: Seq<char>, count: usize, size: u64, evicted: EvictionReport)
    ensures
        model_note(None).len() == 0,
        (" Embedding model "@ + text).is_prefix_of(model_note(Some(text))),
        reuse_note(None).len() == 0,
        (" Reused cached embeddings for "@ + decimal(count as nat)).is_prefix_of(
            reuse_note(Some(count)),
        ),
        size_note(None).len() == 0,
        (" Size "@ + size_text(size)).is_prefix_of(size_note(Some(size))),
        since_note(None).len() == 0,
        since_note(Some(text)) == " since "@ + text,
        eviction_note(None).len() == 0,
        eviction_note(Some(evicted)) == " Evicted "@ + decimal(evicted.evicted_chunks as nat)
            + " chunk(s) and "@ + decimal(evicted.evicted_nodes as nat)
            + " node(s) to control database size."@,
{
    let a = " Embedding model "@ + text;
    assert(model_note(Some(text)).subrange(0, a.len() as int) =~= a);
    let b = " Reused cached embeddings for "@ + decimal(count as nat);
    assert(reuse_note(Some(count)).subrange(0, b.len() as int) =~= b);
    let c = " Size "@ + size_text(size);
    assert(size_note(Some(size)).subrange(0, c.len() as int) =~= c);
}

/// A commit is shown by the first seven characters of its hash, or by all of a shorter one.
pub proof fn law_short_hash(sha: Seq<char>)
    ensures
        short_hash(sha).is_prefix_of(sha),
        sha.len() <= 7 ==> short_hash(sha) == sha,
        sha.len() > 7 ==> short_hash(sha).len() == 7,
        commit_name(Some(sha)) == short_hash(sha),
        commit_name(None) == "unknown"@,
{
    let s = short_hash(sha);
    assert(sha.subrange(0, s.len() as int) =~= s);
}

/// Of a stale index the stored commit is told first and that of the workspace then; of
/// another one the stored commit alone, where it is known.
pub proof fn law_commit_note(indexed: Option<Seq<char>>, current: Option<Seq<char>>)
    ensures
        commit_note(true, indexed, current) == " Index is stale (stored "@ + commit_name(indexed)
            + " vs. workspace "@ + commit_name(current) + ")."@,
        commit_note(false, indexed, current) == commit_note(false, indexed, None),
        commit_note(false, None, current).len() == 0,
        indexed matches Some(sha) ==> commit_note(false, indexed, current)
            == " Index aligned with commit "@ + commit_name(Some(sha)) + "."@,
{
}

/// Where there is no database, its path is told and what makes one; where there is one, its
/// path and its counts come first.
pub proof fn law_status_summary(p: IndexStatusResponse)
    ensures
        !p.database_exists ==> ("SQLite index not found at "@ + p.database_path@).is_prefix_of(
            status_summary(p),
        ),
        p.database_exists ==> ("Database "@ + p.database_path@ + " tracks "@ + decimal(
            p.total_files as nat,
        ) + " file(s) and "@ + decimal(p.total_chunks as nat) + " chunk(s)."@).is_prefix_of(
            status_summary(p),
        ),
        p.database_exists ==> models_note(texts(p.embedding_models@)).is_suffix_of(
            status_summary(p),
        ),
        p.latest_ingestion is None ==> history_note(p.latest_ingestion)
            == " No ingestion history recorded yet."@,
        p.latest_ingestion matches Some(l) ==> history_note(p.latest_ingestion)
            == " Last ingest processed "@ + signed_decimal(l.file_count as int) + " file(s) in "@
            + signed_seconds_text(l.duration_ms as int) + "s."@,
{
    let t = status_summary(p);
    if !p.database_exists {
        let a = "SQLite index not found at "@ + p.database_path@;
        assert(t.subrange(0, a.len() as int) =~= a);
    } else {
        let a = "Database "@ + p.database_path@ + " tracks "@ + decimal(p.total_files as nat)
            + " file(s) and "@ + decimal(p.total_chunks as nat) + " chunk(s)."@;
        let b = size_note(p.database_size_bytes);
        let c = history_note(p.latest_ingestion);
        let d = commit_note(p.is_stale, text_of(p.commit_sha), text_of(p.current_commit_sha));
        let e = models_note(texts(p.embedding_models@));
        assert(t == a + b + c + d + e);
        lemma_ends(a, b + c + d, e);
        assert(a + b + c + d + e =~= a + (b + c + d) + e);
    }
}

/// A text in three pieces begins with the first of them and ends with the last.
proof fn lemma_ends(a: Seq<char>, b: Seq<char>, c: Seq<char>)
    ensures
        a.is_prefix_of(a + b + c),
        c.is_suffix_of(a + b + c),
{
    let t = a + b + c;
    assert(t.subrange(0, a.len() as int) =~= a);
    assert(t.subrange(t.len() - c.len(), t.len() as int) =~= c);
}

/// An ingestion is told by its counts, its root and its time, and at the end by what it took
/// out.
pub proof fn law_ingest_summary(p: IngestResponse)
    ensures
        ("Indexed "@ + decimal(p.ingested_file_count as nat) + " file(s) ("@ + decimal(
            p.embedded_chunk_count as nat,
        ) + " chunk(s)) at "@ + p.root@ + " in "@ + seconds_text(p.duration_ms as nat)
            + "s. Database size is "@ + size_text(p.database_size_bytes) + "."@).is_prefix_of(
            ingest_summary(p),
        ),
        (model_note(text_of(p.embedding_model)) + reuse_note(p.reused_file_count) + skip_note(
            p.skipped@.len(),
        ) + removal_note(p.deleted_paths@.len()) + eviction_note(p.evicted)).is_suffix_of(
            ingest_summary(p),
        ),
{
    let t = ingest_summary(p);
    let a = "Indexed "@ + decimal(p.ingested_file_count as nat) + " file(s) ("@ + decimal(
        p.embedded_chunk_count as nat,
    ) + " chunk(s)) at "@ + p.root@ + " in "@ + seconds_text(p.duration_ms as nat)
        + "s. Database size is "@ + size_text(p.database_size_bytes) + "."@;
    let b = model_note(text_of(p.embedding_model));
    let c = reuse_note(p.reused_file_count);
    let d = skip_note(p.skipped@.len());
    let e = removal_note(p.deleted_paths@.len());
    let f = eviction_note(p.evicted);
    assert(t == a + b + c + d + e + f);
    lemma_notes(a, b, c, d, e, f);
    lemma_ends(a, Seq::empty(), b + c + d + e + f);
    assert(a + Seq::<char>::empty() =~= a);
}

proof fn lemma_notes(
    a: Seq<char>,
    b: Seq<char>,
    c: Seq<char>,
    d: Seq<char>,
    e: Seq<char>,
    f: Seq<char>,
)
    ensures
        a + b + c + d + e + f == a + (b + c + d + e + f),
{
    assert(a + b + c =~= a + (b + c));
    assert(a + (b + c) + d =~= a + (b + c + d));
    assert(a + (b + c + d) + e =~= a + (b + c + d + e));
    assert(a + (b + c + d + e) + f =~= a + (b + c + d + e + f));
}

/// The database goes by the name that was given; else by its path below the root, or by the
/// name of its file where it does not lie there.
pub proof fn law_status_database(
    root: Seq<char>,
    database_path: Seq<char>,
    given: Option<Seq<char>>,
)
    ensures
        given is Some ==> status_database_name(root, database_path, given) == given,
        given is None && below_any(root, database_path) is None ==> status_database_name(
            root,
            database_path,
            given,
        ) == file_name_of(database_path),
        given is None ==> (below_any(root, database_path) matches Some(rest) ==> rest.len() > 0
            ==> status_database_name(root, database_path, given) == Some(rest)),
        given is None ==> (below_any(root, database_path) matches Some(rest) ==> rest.len() == 0
            ==> status_database_name(root, database_path, given) == file_name_of(database_path)),
{
}

/// The first line with something on it is told, whatever blank lines stand before it, and
/// nothing where all are blank.
pub proof fn law_first_filled_line(front: Seq<Seq<char>>, line: Seq<char>, back: Seq<Seq<char>>)
    requires
        forall|i: int| 0 <= i < front.len() ==> trimmed(#[trigger] front[i]).len() == 0,
    ensures
        first_filled_line(front) is None,
        trimmed(line).len() > 0 ==> first_filled_line(front + seq![line] + back) == Some(
            trimmed(line),
        ),
    decreases front.len(),
{
    let all = front + seq![line] + back;
    if front.len() == 0 {
        assert(all[0] == line);
    } else {
        let rest = front.drop_first();
        assert forall|i: int| 0 <= i < rest.len() implies trimmed(#[trigger] rest[i]).len()
            == 0 by {
            assert(rest[i] == front[i + 1]);
        }
        law_first_filled_line(rest, line, back);
        assert(all[0] == front[0]);
        assert(all.drop_first() =~= rest + seq![line] + back);
    }
}

/// A definition's details are its visibility and its documentation, and there are none where
/// it has neither.
pub proof fn law_definition_details(d: BundleDefinition)
    ensures
        d.visibility is None && d.docstring is None ==> definition_details(d) is None,
        d.visibility matches Some(v) ==> trimmed(v@).len() > 0 ==> definition_details(d) is Some,
        d.visibility matches Some(v) ==> trimmed(v@).len() > 0 && d.docstring is None
            ==> definition_details(d) == Some(
            "Details: "@ + ("visibility "@ + trimmed(v@)) + "."@,
        ),
        definition_details(d) matches Some(t) ==> "Details: "@.is_prefix_of(t),
{
    let v = visibility_part(text_of(d.visibility));
    let parts = v + doc_part(text_of(d.docstring));
    if let Some(text) = d.visibility {
        if trimmed(text@).len() > 0 {
            assert(parts[0] == "visibility "@ + trimmed(text@));
        }
    }
    if parts.len() > 0 {
        let t = "Details: "@ + joined(parts, "; "@) + "."@;
        let lead = "Details: "@;
        assert(t.subrange(0, lead.len() as int) =~= lead);
    }
}

/// A snippet of one line is named by that line, and one of more by its first and its last.
pub proof fn law_span_text(a: i64, b: i64)
    ensures
        span_text(Some(a), Some(a)) == "line "@ + signed_decimal(a as int),
        span_text(Some(a), None) == span_text(Some(a), Some(a)),
        a != b ==> span_text(Some(a), Some(b)) == "lines "@ + signed_decimal(a as int) + "-"@
            + signed_decimal(b as int),
        span_text(None, Some(b)) == span_text(None, None),
{
}

/// At most three snippets are described, the first ones, and the number of the others is told.
pub proof fn law_snippet_list(snippets: Seq<BundleSnippet>, i: int)
    ensures
        snippets.len() <= 3 ==> snippet_list(snippets).len() == snippets.len(),
        snippets.len() > 3 ==> snippet_list(snippets).len() == 4 && snippet_list(snippets)[3]
            == "+"@ + decimal((snippets.len() - 3) as nat) + " more"@,
        0 <= i < snippets.len() && i < 3 ==> snippet_list(snippets)[i] == (match snippets[i].source {
            SnippetSource::Chunk => "chunk"@,
            SnippetSource::Content => "content"@,
        }) + " "@ + span_text(snippets[i].line_start, snippets[i].line_end),
        snippets_note(snippets) is None <==> snippets.len() == 0,
{
}

/// The tokens of snippets are those of the ones before and those of the last, as long as a
/// machine word holds them.
pub proof fn law_snippet_tokens(snippets: Seq<BundleSnippet>, n: int)
    requires
        0 < n <= snippets.len(),
        snippet_tokens(snippets, n - 1) + tokens_of(snippets[n - 1].content@) <= usize::MAX,
    ensures
        snippet_tokens(snippets, 0) == 0,
        snippet_tokens(snippets, n) == snippet_tokens(snippets, n - 1) + tokens_of(
            snippets[n - 1].content@,
        ),
{
}

/// The first link is told by what it leads to and by its label.
pub proof fn law_link_parts(links: Seq<ContextBundleQuickLink>)
    ensures
        links.len() == 0 ==> link_parts(links).len() == 0,
        links.len() > 0 ==> link_parts(links).len() == 1,
        links.len() > 0 && links[0].kind is File ==> link_parts(links)[0]
            == "First quick link: "@ + "file "@ + links[0].label@ + "."@,
        links.len() > 0 && links[0].kind is RelatedSymbol ==> link_parts(links)[0]
            == "First quick link: "@ + "symbol "@ + links[0].label@ + "."@,
{
}

/// One warning is told, and of more the number and the first.
pub proof fn law_warning_parts(first: Seq<char>, others: Seq<Seq<char>>)
    ensures
        warning_parts(Seq::empty()).len() == 0,
        warning_parts(seq![first]) == seq!["Warning: "@ + first + "."@],
        others.len() > 0 ==> warning_parts(seq![first] + others) == seq![
            "Warnings: "@ + decimal(1 + others.len()) + " (first: "@ + first + ")."@,
        ],
        warnings_line(Seq::empty()).len() == 0,
        warnings_line(seq![first]) == seq!["Warnings: "@ + first],
{
    assert(joined(seq![first], "; "@) == first);
}

/// A bundle is summed up by the definition in its focus, else by its first one.
pub proof fn law_definition_parts(b: ContextBundleResponse)
    ensures
        b.focus_definition matches Some(d) ==> definition_parts(b)[0] == "Focus on "@ + d.kind@
            + " "@ + d.name@ + "."@,
        b.focus_definition is None && b.definitions@.len() > 0 ==> definition_parts(b)[0]
            == "Primary definition "@ + b.definitions@[0].kind@ + " "@ + b.definitions@[0].name@
            + "."@,
        b.focus_definition is None && b.definitions@.len() == 0 ==> definition_parts(b).len() == 0,
        definition_parts(b).len() <= 2,
        usage_part(b) == "Token usage "@ + decimal(b.usage.used_tokens as nat) + " of "@ + decimal(
            b.usage.budget_tokens as nat,
        ) + " ("@ + decimal(b.usage.remaining_tokens as nat) + " unused)."@,
        cache_parts(false).len() == 0,
        cache_parts(true) == seq!["Served from cache."@],
{
}

/// A match takes the bytes of its text and of the lines around it, and matches together take
/// what each of them takes, as long as a machine word holds it.
pub proof fn law_match_size(m: SemanticSearchMatch, results: Seq<SemanticSearchMatch>, n: int)
    requires
        0 < n <= results.len(),
        utf8_size(m.content@) + (match m.context_before {
            Some(t) => utf8_size(t@),
            None => 0,
        }) + (match m.context_after {
            Some(t) => utf8_size(t@),
            None => 0,
        }) <= usize::MAX,
        total_size(results, n - 1) + match_size(results[n - 1]) <= usize::MAX,
    ensures
        match_size(m) == utf8_size(m.content@) + (match m.context_before {
            Some(t) => utf8_size(t@),
            None => 0,
        }) + (match m.context_after {
            Some(t) => utf8_size(t@),
            None => 0,
        }),
        total_size(results, 0) == 0,
        total_size(results, n) == total_size(results, n - 1) + match_size(results[n - 1]),
{
}

/// A timeline without commits names its branch, and another one begins with how many there
/// are.
pub proof fn law_timeline_summary(p: RepositoryTimelineResponse)
    ensures
        p.total_commits == 0 ==> ("No commits matched the requested filters on "@
            + p.branch@).is_prefix_of(timeline_summary(p)),
        p.total_commits == 1 ==> ("Latest "@ + decimal(1) + " "@ + "commit"@ + since_note(
            text_of(p.since),
        ) + " on "@ + p.branch@ + "; "@ + signed_decimal(p.total_insertions as int)
            + " insertions / "@ + signed_decimal(p.total_deletions as int)
            + " deletions."@).is_prefix_of(timeline_summary(p)),
        p.total_commits > 1 ==> ("Latest "@ + decimal(p.total_commits as nat) + " "@ + "commits"@
            + since_note(text_of(p.since)) + " on "@ + p.branch@ + "; "@ + signed_decimal(
            p.total_insertions as int,
        ) + " insertions / "@ + signed_decimal(p.total_deletions as int)
            + " deletions."@).is_prefix_of(timeline_summary(p)),
        diffs_note(p.include_diffs).is_suffix_of(timeline_summary(p)),
        p.include_diffs <==> diffs_note(p.include_diffs).len() > 0,
        p.total_commits > 0 ==> (merge_note(p.merge_commits as nat) + diffs_note(
            p.include_diffs,
        )).is_suffix_of(timeline_summary(p)),
{
    reveal_strlit(" Diffs cached in SQLite; call repository_timeline_entry for full output.");
    let d = diffs_note(p.include_diffs);
    if p.total_commits == 0 {
        let a = "No commits matched the requested filters on "@ + p.branch@;
        let s = since_note(text_of(p.since)) + "."@;
        lemma_ends(a, s, d);
        assert(a + since_note(text_of(p.since)) + "."@ =~= a + s);
    } else {
        let word = if p.total_commits == 1 {
            "commit"@
        } else {
            "commits"@
        };
        let a = "Latest "@ + decimal(p.total_commits as nat) + " "@ + word + since_note(
            text_of(p.since),
        ) + " on "@ + p.branch@ + "; "@ + signed_decimal(p.total_insertions as int)
            + " insertions / "@ + signed_decimal(p.total_deletions as int) + " deletions."@;
        let m = merge_note(p.merge_commits as nat);
        lemma_ends(a, m, d);
        lemma_ends(a, Seq::empty(), m + d);
        assert(a + Seq::<char>::empty() =~= a);
        assert(a + m + d =~= a + (m + d));
        assert(timeline_summary(p) == a + m + d);
    }
}

/// A stored commit is named, with the size of its diff where it has one.
pub proof fn law_entry_summary(sha: Seq<char>, diff: Seq<char>)
    ensures
        entry_summary(sha, Some(Seq::empty())) == entry_summary(sha, None),
        entry_summary(sha, None) == "repository_timeline_entry: no diff stored for commit "@ + sha
            + "."@,
        diff.len() > 0 ==> entry_summary(sha, Some(diff))
            == "repository_timeline_entry: retrieved diff for commit "@ + sha + " ("@ + decimal(
            utf8_size(diff),
        ) + " bytes cached)."@,
{
}

} // verus!
