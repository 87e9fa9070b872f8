//! What taking files in writes to the index, what it removes, and what is reported.

use vstd::prelude::*;
use crate::sizes::utf8_size;
use crate::bundle_graph::text_of;
use crate::chunk::{chunk_content, chunk_ranges, is_fragment_of, ChunkFragment};
use crate::decimal::{decimal, push_decimal};
use crate::graph::GraphExtraction;
use crate::graph_script::{events_view, extract_graph, is_graph_of_file, ScriptEvent};
use crate::ingest::{
    pairs, has_relative, ChunkRecord, EmbeddingConfig, EvictionReport, IngestResponse, ScannedFile,
    SkippedFile, TargetEntry,
};
use crate::order::{in_order, sort_texts};
use crate::pieces::{contains_string, push_text, texts};
use crate::score::Score;
use crate::search_results::{blob_of, embedding_to_bytes};
use crate::text::{same_text, trimmed};

verus! {

// ---------------------------------------------------------------------------
// What is written
// ---------------------------------------------------------------------------

/// The fragment that a record holds.
pub open spec fn fragment_in(record: ChunkRecord) -> ChunkFragment {
    ChunkFragment {
        content: record.content,
        byte_start: record.byte_start as u32,
        byte_end: record.byte_end as u32,
        line_start: record.line_start as u32,
        line_end: record.line_end as u32,
    }
}

/// The record is the `k`-th chunk of the file.
pub open spec fn is_record(
    record: ChunkRecord,
    path: Seq<char>,
    k: int,
    content: Seq<char>,
    range: (int, int),
) -> bool {
    &&& record.id@ == path + ":"@ + decimal(k as nat)
    &&& record.path@ == path
    &&& record.chunk_index == k as i32
    &&& 0 <= record.byte_start <= u32::MAX
    &&& 0 <= record.byte_end <= u32::MAX
    &&& 0 <= record.line_start <= u32::MAX
    &&& 0 <= record.line_end <= u32::MAX
    &&& is_fragment_of(fragment_in(record), content, range)
}

/// The ranges of a file's chunks: none where the file has no text or nothing is embedded.
pub open spec fn file_ranges(file: ScannedFile, config: EmbeddingConfig) -> Seq<(int, int)> {
    match file.text_content {
        Some(text) => if config.enabled {
            chunk_ranges(trimmed(text@), config.chunk_size_tokens, config.chunk_overlap_tokens)
        } else {
            Seq::empty()
        },
        None => Seq::empty(),
    }
}

/// The text that a file's chunks are cut from.
pub open spec fn chunked_text(file: ScannedFile) -> Seq<char> {
    match file.text_content {
        Some(text) => trimmed(text@),
        None => Seq::empty(),
    }
}

/// The records are the chunks of the file.
pub open spec fn are_chunks_of(
    records: Seq<ChunkRecord>,
    file: ScannedFile,
    config: EmbeddingConfig,
) -> bool {
    &&& records.len() == file_ranges(file, config).len()
    &&& forall|k: int|
        0 <= k < records.len() ==> is_record(
            #[trigger] records[k],
            file.path@,
            k,
            chunked_text(file),
            file_ranges(file, config)[k],
        )
}

/// The chunks of a file.
pub fn chunk_file(file: &ScannedFile, config: &EmbeddingConfig) -> (r: Vec<ChunkRecord>)
    ensures
        are_chunks_of(r@, *file, *config),
{
    let mut out: Vec<ChunkRecord> = Vec::new();
    let Some(text) = &file.text_content else {
        return out;
    };
    if !config.enabled {
        return out;
    }
    let fragments = chunk_content(
        text.as_str(),
        config.chunk_size_tokens,
        config.chunk_overlap_tokens,
    );
    let ghost ranges = file_ranges(*file, *config);
    let mut i: usize = 0;
    while i < fragments.len()
        invariant
            i <= fragments@.len(),
            fragments@.len() == ranges.len(),
            out@.len() == i,
            forall|k: int|
                0 <= k < fragments@.len() ==> is_fragment_of(
                    #[trigger] fragments@[k],
                    chunked_text(*file),
                    ranges[k],
                ),
            forall|k: int|
                0 <= k < out@.len() ==> is_record(
                    #[trigger] out@[k],
                    file.path@,
                    k,
                    chunked_text(*file),
                    ranges[k],
                ),
        decreases fragments.len() - i,
    {
        let mut id = file.path.clone();
        id.append(":");
        push_decimal(&mut id, i as u64);
        let record = ChunkRecord {
            id,
            path: file.path.clone(),
            chunk_index: i as i32,
            content: fragments[i].content.clone(),
            byte_start: fragments[i].byte_start as i64,
            byte_end: fragments[i].byte_end as i64,
            line_start: fragments[i].line_start as i64,
            line_end: fragments[i].line_end as i64,
        };
        proof {
            let f = fragments@[i as int];
            assert(is_fragment_of(f, chunked_text(*file), ranges[i as int]));
            let g = fragment_in(record);
            assert(g.byte_start == f.byte_start && g.byte_end == f.byte_end);
            assert(g.line_start == f.line_start && g.line_end == f.line_end);
            assert(g.content@ == f.content@);
            assert(is_fragment_of(g, chunked_text(*file), ranges[i as int]));
        }
        out.push(record);
        i += 1;
    }
    out
}

/// What is written for a file.
#[derive(Debug)]
pub struct FilePlan {
    pub chunks: Vec<ChunkRecord>,
    pub graph: Option<GraphExtraction>,
}

/// What is written for a file. `script` holds what a parser met in it, where it is a script
/// that parses.
pub fn plan_file(
    file: &ScannedFile,
    config: &EmbeddingConfig,
    script: &Option<Vec<ScriptEvent>>,
) -> (r: FilePlan)
    ensures
        are_chunks_of(r.chunks@, *file, *config),
        match file.text_content {
            Some(text) => is_graph_of_file(r.graph, file.path@, text@, events_view(*script)),
            None => r.graph is None,
        },
{
    let chunks = chunk_file(file, config);
    let graph = match &file.text_content {
        Some(text) => extract_graph(file.path.as_str(), text.as_str(), script),
        None => None,
    };
    FilePlan { chunks, graph }
}

/// A chunk with its vector, as the index stores it.
#[derive(Debug)]
pub struct EmbeddedChunk {
    pub record: ChunkRecord,
    pub embedding: Vec<u8>,
}

/// The texts of the chunks, in order.
pub open spec fn contents_of(records: Seq<ChunkRecord>) -> Seq<Seq<char>> {
    records.map_values(|r: ChunkRecord| r.content@)
}

/// The texts of the chunks, in the order in which they are embedded.
pub fn texts_to_embed(records: &Vec<ChunkRecord>) -> (r: Vec<String>)
    ensures
        texts(r@) == contents_of(records@),
{
    let ghost all = contents_of(records@);
    let mut out: Vec<String> = Vec::new();
    let mut i: usize = 0;
    assert(texts(out@) =~= all.take(0));
    while i < records.len()
        invariant
            i <= records@.len(),
            all == contents_of(records@),
            texts(out@) == all.take(i as int),
        decreases records.len() - i,
    {
        assert(all.take(i + 1) =~= all.take(i as int).push(records@[i as int].content@));
        push_text(&mut out, records[i].content.clone());
        i += 1;
    }
    assert(all.take(i as int) =~= all);
    out
}

/// The chunks with their vectors: each has the vector of its own text. A chunk without a
/// vector is not stored.
pub fn attach_embeddings(records: Vec<ChunkRecord>, vectors: &Vec<Vec<Score>>) -> (r: Vec<
    EmbeddedChunk,
>)
    requires
        vectors@.len() <= records@.len(),
    ensures
        r@.len() == vectors@.len(),
        forall|i: int|
            0 <= i < r@.len() ==> (#[trigger] r@[i]).record == records@[i] && r@[i].embedding@
                == blob_of(vectors@[i]@),
{
    let ghost all = records@;
    let mut out: Vec<EmbeddedChunk> = Vec::new();
    let ghost mut n: int = 0;
    for record in it: records
        invariant
            it.seq() == all,
            n == it.index(),
            0 <= n <= all.len(),
            vectors@.len() <= all.len(),
            out@.len() == (if n <= vectors@.len() {
                n
            } else {
                vectors@.len() as int
            }),
            forall|i: int|
                0 <= i < out@.len() ==> (#[trigger] out@[i]).record == all[i] && out@[i].embedding@
                    == blob_of(vectors@[i]@),
    {
        let k: usize = out.len();
        if k < vectors.len() {
            let embedding = embedding_to_bytes(vectors[k].as_slice());
            out.push(EmbeddedChunk { record, embedding });
        }
        proof {
            n = n + 1;
        }
    }
    out
}

/// The chunks of one file have different identifiers.
pub proof fn law_chunk_ids_distinct(
    records: Seq<ChunkRecord>,
    file: ScannedFile,
    config: EmbeddingConfig,
)
    requires
        are_chunks_of(records, file, config),
    ensures
        forall|j: int, k: int|
            0 <= j < k < records.len() ==> (#[trigger] records[j]).id@ != (
            #[trigger] records[k]).id@,
{
    assert forall|j: int, k: int| 0 <= j < k < records.len() implies (
    #[trigger] records[j]).id@ != (#[trigger] records[k]).id@ by {
        let prefix = file.path@ + ":"@;
        let a = decimal(j as nat);
        let b = decimal(k as nat);
        assert(records[j].id@ == prefix + a);
        assert(records[k].id@ == prefix + b);
        if prefix + a == prefix + b {
            assert(a =~= (prefix + a).skip(prefix.len() as int));
            assert(b =~= (prefix + b).skip(prefix.len() as int));
            crate::decimal::lemma_decimal_injective(j as nat, k as nat);
        }
    }
}

// ---------------------------------------------------------------------------
// What is removed
// ---------------------------------------------------------------------------

/// The path is removed: it was indexed, it was not read again, and it is one of the named
/// paths where the request names any.
pub open spec fn is_deleted(
    existing: Seq<Seq<char>>,
    retained: Seq<Seq<char>>,
    targets: Seq<(Seq<char>, Seq<char>)>,
    path: Seq<char>,
) -> bool {
    existing.contains(path) && !retained.contains(path) && (targets.len() == 0 || has_relative(
        targets,
        path,
    ))
}

fn is_target(targets: &Vec<TargetEntry>, path: &str) -> (r: bool)
    ensures
        r == has_relative(pairs(targets@), path@),
{
    let mut i: usize = 0;
    while i < targets.len()
        invariant
            i <= targets@.len(),
            forall|k: int| 0 <= k < i ==> (#[trigger] pairs(targets@)[k]).0 != path@,
        decreases targets.len() - i,
    {
        assert(pairs(targets@)[i as int].0 == targets@[i as int].relative@);
        if same_text(targets[i].relative.as_str(), path) {
            return true;
        }
        i += 1;
    }
    false
}

proof fn lemma_same_multiset(a: Seq<Seq<char>>, b: Seq<Seq<char>>)
    requires
        a.to_multiset() == b.to_multiset(),
        a.no_duplicates(),
    ensures
        b.no_duplicates(),
        forall|x: Seq<char>| #[trigger] a.contains(x) == b.contains(x),
{
    broadcast use vstd::seq_lib::group_to_multiset_ensures;

    assert forall|x: Seq<char>| #[trigger] a.contains(x) == b.contains(x) by {
        assert(a.contains(x) == (a.to_multiset().count(x) > 0));
        assert(b.contains(x) == (b.to_multiset().count(x) > 0));
    }
    a.lemma_multiset_has_no_duplicates();
    assert forall|x: Seq<char>| b.to_multiset().contains(x) implies b.to_multiset().count(x)
        == 1 by {
        assert(a.to_multiset().contains(x));
    }
    b.lemma_multiset_has_no_duplicates_conv();
}

/// The paths that are removed, sorted: `existing` is what was indexed, `retained` what was
/// read again.
pub fn deleted_paths(
    existing: &Vec<String>,
    retained: &Vec<String>,
    targets: &Vec<TargetEntry>,
) -> (r: Vec<String>)
    ensures
        in_order(texts(r@)),
        texts(r@).no_duplicates(),
        forall|path: Seq<char>| #[trigger]
            texts(r@).contains(path) == is_deleted(
                texts(existing@),
                texts(retained@),
                pairs(targets@),
                path,
            ),
{
    let mut out: Vec<String> = Vec::new();
    let ghost all = texts(existing@);
    let ghost kept = texts(retained@);
    let ghost named = pairs(targets@);
    let mut i: usize = 0;
    assert(all.take(0) =~= Seq::<Seq<char>>::empty());
    assert(texts(out@) =~= Seq::<Seq<char>>::empty());
    while i < existing.len()
        invariant
            i <= existing@.len(),
            all == texts(existing@),
            kept == texts(retained@),
            named == pairs(targets@),
            texts(out@).no_duplicates(),
            forall|path: Seq<char>| #[trigger]
                texts(out@).contains(path) == is_deleted(all.take(i as int), kept, named, path),
        decreases existing.len() - i,
    {
        let path = existing[i].as_str();
        let ghost before = texts(out@);
        let ghost p = path@;
        proof {
            assert(all.take(i + 1) =~= all.take(i as int).push(p));
        }
        if !contains_string(retained, path) && (targets.len() == 0 || is_target(targets, path))
            && !contains_string(&out, path) {
            push_text(&mut out, existing[i].clone());
            assert(texts(out@) == before.push(p));
        }
        proof {
            let prefix = all.take(i as int);
            assert(prefix.push(p)[prefix.len() as int] == p);
            assert forall|x: Seq<char>| #[trigger] texts(out@).contains(x) == is_deleted(
                all.take(i + 1),
                kept,
                named,
                x,
            ) by {
                vstd::seq_lib::lemma_seq_contains_after_push(prefix, p, x);
                if texts(out@) != before {
                    vstd::seq_lib::lemma_seq_contains_after_push(before, p, x);
                }
                assert(prefix.push(p).contains(x) == (prefix.contains(x) || x == p)) by {
                    assert(prefix.push(p).contains(p));
                }
                assert(before.contains(x) == is_deleted(prefix, kept, named, x));
            }
        }
        i += 1;
    }
    assert(all.take(i as int) =~= all);
    let ghost unsorted = texts(out@);
    let sorted = sort_texts(out);
    proof {
        lemma_same_multiset(unsorted, texts(sorted@));
        assert forall|path: Seq<char>| #[trigger] texts(sorted@).contains(path) == is_deleted(
            all,
            kept,
            named,
            path,
        ) by {
            assert(unsorted.contains(path) == texts(sorted@).contains(path));
        }
    }
    sorted
}

/// What is removed was indexed before and is not among what was read.
pub proof fn law_deleted_not_retained(
    existing: Seq<Seq<char>>,
    retained: Seq<Seq<char>>,
    targets: Seq<(Seq<char>, Seq<char>)>,
    path: Seq<char>,
)
    requires
        is_deleted(existing, retained, targets, path),
    ensures
        existing.contains(path),
        !retained.contains(path),
{
}

// ---------------------------------------------------------------------------
// Eviction
// ---------------------------------------------------------------------------

/// How many bytes a database has too many, given the size that it may have and the size
/// that it is brought down to; `None` where it may stay as it is. A limit of 0 is none.
pub fn bytes_to_free(size: u64, max_size: u64, target_size: u64) -> (r: Option<u64>)
    ensures
        r == (if max_size == 0 || size <= max_size || size <= target_size {
            None
        } else {
            Some((size - target_size) as u64)
        }),
{
    if max_size == 0 || size <= max_size || size <= target_size {
        None
    } else {
        Some(size - target_size)
    }
}

/// Nodes are removed too where there are some and removing chunks did not free enough.
pub fn evicts_nodes(total_nodes: usize, size_after_chunks: u64, target_size: u64, size: u64) -> (r:
    bool)
    ensures
        r == (total_nodes > 0 && size_after_chunks > target_size && size > 0),
{
    total_nodes > 0 && size_after_chunks > target_size && size > 0
}

/// What is reported of an eviction: where the size cannot be read at the end, it is the
/// size after the chunks were removed.
pub fn eviction_report(
    database_path: String,
    size_before: u64,
    size_after_chunks: u64,
    size_at_end: Option<u64>,
    evicted_chunks: usize,
    evicted_nodes: usize,
) -> (r: EvictionReport)
    ensures
        r.database_path == database_path,
        r.size_before == size_before,
        r.size_after == match size_at_end {
            Some(n) => n,
            None => size_after_chunks,
        },
        r.evicted_chunks == evicted_chunks,
        r.evicted_nodes == evicted_nodes,
{
    let size_after: u64 = match size_at_end {
        Some(n) => n,
        None => size_after_chunks,
    };
    EvictionReport { database_path, size_before, size_after, evicted_chunks, evicted_nodes }
}

// ---------------------------------------------------------------------------
// The report
// ---------------------------------------------------------------------------

/// What was done for a request.
#[derive(Debug)]
pub struct IngestOutcome {
    pub root: String,
    pub database_path: String,
    pub database_size_bytes: u64,
    pub ingested_file_count: usize,
    pub skipped: Vec<SkippedFile>,
    pub deleted_paths: Vec<String>,
    pub duration_ms: u128,
    pub embedded_chunk_count: usize,
    pub graph_node_count: usize,
    pub graph_edge_count: usize,
    pub evicted: Option<EvictionReport>,
}

/// What is reported: the model only where chunks were embedded, and the size of the
/// database after what was removed from it.
pub fn ingest_response(outcome: IngestOutcome, model: &str) -> (r: IngestResponse)
    ensures
        r.root == outcome.root,
        r.database_path == outcome.database_path,
        r.database_size_bytes == match outcome.evicted {
            Some(report) => report.size_after,
            None => outcome.database_size_bytes,
        },
        r.ingested_file_count == outcome.ingested_file_count,
        r.skipped == outcome.skipped,
        r.deleted_paths == outcome.deleted_paths,
        r.duration_ms == outcome.duration_ms,
        r.embedded_chunk_count == outcome.embedded_chunk_count,
        text_of(r.embedding_model) == (if outcome.embedded_chunk_count > 0 {
            Some(model@)
        } else {
            None
        }),
        r.embedding_backend is None,
        r.embedding_dimension is None,
        r.embedding_latency_ms is None,
        r.embedding_quantized is None,
        r.graph_node_count == outcome.graph_node_count,
        r.graph_edge_count == outcome.graph_edge_count,
        r.evicted == outcome.evicted,
        r.reused_file_count is None,
{
    let database_size_bytes: u64 = match &outcome.evicted {
        Some(report) => report.size_after,
        None => outcome.database_size_bytes,
    };
    let embedding_model = if outcome.embedded_chunk_count > 0 {
        Some(model.to_owned())
    } else {
        None
    };
    IngestResponse {
        root: outcome.root,
        database_path: outcome.database_path,
        database_size_bytes,
        ingested_file_count: outcome.ingested_file_count,
        skipped: outcome.skipped,
        deleted_paths: outcome.deleted_paths,
        duration_ms: outcome.duration_ms,
        embedded_chunk_count: outcome.embedded_chunk_count,
        embedding_model,
        embedding_backend: None,
        embedding_dimension: None,
        embedding_latency_ms: None,
        embedding_quantized: None,
        graph_node_count: outcome.graph_node_count,
        graph_edge_count: outcome.graph_edge_count,
        evicted: outcome.evicted,
        reused_file_count: None,
    }
}

/// The commit that a repository stands at, read from what `git rev-parse` printed; `None`
/// where it printed nothing.
pub fn commit_from_output(stdout: &str) -> (r: Option<String>)
    ensures
        text_of(r) == (if trimmed(stdout@).len() > 0 {
            Some(trimmed(stdout@))
        } else {
            None
        }),
{
    let commit = crate::text::trim_str(stdout);
    if commit.as_str().is_empty() {
        None
    } else {
        Some(commit)
    }
}

/// A chunk is stored under its file and its number in it, with the text that it covers, and
/// with the bytes and lines where that stands in the file's trimmed text.
pub proof fn law_record(
    record: ChunkRecord,
    path: Seq<char>,
    k: int,
    content: Seq<char>,
    range: (int, int),
)
    requires
        0 <= k <= i32::MAX,
        0 <= range.0 < range.1 <= content.len(),
        utf8_size(content) <= u32::MAX,
        is_record(record, path, k, content, range),
    ensures
        record.id@ == path + ":"@ + decimal(k as nat),
        record.path@ == path,
        record.chunk_index == k,
        record.content@ == content.subrange(range.0, range.1),
        record.byte_start == utf8_size(content.take(range.0)),
        record.byte_end == utf8_size(content.take(range.1)),
        record.byte_end - record.byte_start == utf8_size(record.content@),
{
    crate::sizes::lemma_size_take(content, range.0, range.1);
    crate::sizes::lemma_size_take(content, range.1, content.len() as int);
    assert(content.take(content.len() as int) =~= content);
    let a = content.take(range.0);
    let b = content.subrange(range.0, range.1);
    crate::sizes::lemma_encode_concat(a, b);
    assert(content.take(range.1) =~= a + b);
}

/// Chunks are made exactly of files with text, and only where embedding is on.
pub proof fn law_chunked_files(file: ScannedFile, config: EmbeddingConfig)
    ensures
        !config.enabled ==> file_ranges(file, config).len() == 0,
        file.text_content is None ==> file_ranges(file, config).len() == 0,
        file.text_content matches Some(text) ==> config.enabled ==> file_ranges(file, config)
            == chunk_ranges(trimmed(text@), config.chunk_size_tokens, config.chunk_overlap_tokens),
        file.text_content matches Some(text) ==> chunked_text(file) == trimmed(text@),
{
}

/// An indexed path that was not read again is removed, unless the request names paths and
/// not this one. No other path is.
pub proof fn law_deleted(
    existing: Seq<Seq<char>>,
    retained: Seq<Seq<char>>,
    targets: Seq<(Seq<char>, Seq<char>)>,
    path: Seq<char>,
)
    ensures
        targets.len() == 0 ==> (is_deleted(existing, retained, targets, path) <==> existing.contains(
            path,
        ) && !retained.contains(path)),
        targets.len() > 0 ==> (is_deleted(existing, retained, targets, path) <==> existing.contains(
            path,
        ) && !retained.contains(path) && exists|i: int|
            0 <= i < targets.len() && (#[trigger] targets[i]).0 == path),
{
}

/// The texts are embedded in the order of their chunks.
pub proof fn law_contents(records: Seq<ChunkRecord>, i: int)
    requires
        0 <= i < records.len(),
    ensures
        contents_of(records).len() == records.len(),
        contents_of(records)[i] == records[i].content@,
{
}

/// What is freed brings a database down to its target, and nothing is freed of one that may
/// stay as it is.
pub proof fn law_bytes_to_free(size: u64, max_size: u64, target_size: u64, freed: Option<u64>)
    requires
        call_ensures(bytes_to_free, (size, max_size, target_size), freed),
    ensures
        freed matches Some(n) ==> n > 0 && size - n == target_size && size > max_size && max_size > 0,
        freed is None ==> max_size == 0 || size <= max_size || size <= target_size,
{
}

/// Nodes go only where there are some and the chunks were not enough.
pub proof fn law_evicts_nodes(
    total_nodes: usize,
    size_after_chunks: u64,
    target_size: u64,
    size: u64,
    answer: bool,
)
    requires
        call_ensures(evicts_nodes, (total_nodes, size_after_chunks, target_size, size), answer),
    ensures
        answer ==> total_nodes > 0 && size_after_chunks > target_size && size > 0,
        total_nodes > 0 && size_after_chunks > target_size && size > 0 ==> answer,
{
}

/// The size after an eviction is the one at its end, where that is known.
pub proof fn law_eviction_size(
    path: String,
    sizes: (u64, u64),
    at_end: Option<u64>,
    counts: (usize, usize),
    report: EvictionReport,
)
    requires
        call_ensures(
            eviction_report,
            (path, sizes.0, sizes.1, at_end, counts.0, counts.1),
            report,
        ),
    ensures
        report.size_before == sizes.0,
        at_end matches Some(n) ==> report.size_after == n,
        at_end is None ==> report.size_after == sizes.1,
        report.evicted_chunks == counts.0 && report.evicted_nodes == counts.1,
{
}

/// The commit is what was printed, without white space around it, and none where nothing was.
pub proof fn law_commit_printed(stdout: &str, commit: Option<String>)
    requires
        call_ensures(commit_from_output, (stdout,), commit),
    ensures
        commit is Some <==> trimmed(stdout@).len() > 0,
        commit matches Some(sha) ==> sha@ == trimmed(stdout@),
{
}

} // verus!
