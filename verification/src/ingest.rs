//! Taking a workspace into the index: which files are read, what is written for them, and
//! what is reported.

use vstd::prelude::*;
use crate::bundle_graph::text_of;
use crate::digest::{lossy_text, read_lossy, sha256_hex, sha256_text};
use crate::embedding::{is_fastembed_code, is_variant_for, parse_fastembed_model, EmbeddingError};
use crate::globs::{
    default_exclude_globs, default_include_globs, excluded_by_default, included_by_default,
    is_wanted, patterns_of, portable, set_portable, wanted,
};
use crate::paths::{
    below, is_rooted, is_same_place, join_path, normalize_path, path_in, same_place, strip_dir,
};
use crate::pieces::{replaced_char, texts};
use crate::search::DEFAULT_EMBEDDING_MODEL;
use crate::text::{trim_str, trimmed};

verus! {

/// The tokens of a chunk where the request does not say.
pub const DEFAULT_CHUNK_SIZE_TOKENS: usize = 256;

/// The tokens that chunks share where the request does not say.
pub const DEFAULT_CHUNK_OVERLAP_TOKENS: usize = 32;

/// How many chunks are embedded at once where the request does not say.
pub const DEFAULT_EMBEDDING_BATCH_SIZE: usize = 32;

/// The size that a database may have where the request does not say: 150 megabytes.
pub const DEFAULT_MAX_DATABASE_SIZE_BYTES: u64 = 157_286_400;

/// The name of the database where the request does not say.
pub const DEFAULT_DB_FILENAME: &'static str = ".mcp-index.sqlite";

/// A request to take a workspace into the index. Sizes are whole numbers of bytes.
#[derive(Debug)]
pub struct IngestParams {
    pub root: Option<String>,
    pub included: Option<Vec<String>>,
    pub excluded: Option<Vec<String>>,
    pub database_name: Option<String>,
    pub max_file_size_bytes: Option<u64>,
    pub store_file_content: Option<bool>,
    pub paths: Option<Vec<String>>,
    pub auto_evict: Option<bool>,
    pub max_database_size_bytes: Option<u64>,
    pub embedding: Option<EmbeddingParams>,
}

/// How a request wants texts embedded.
#[derive(Debug)]
pub struct EmbeddingParams {
    pub enabled: Option<bool>,
    pub backend: Option<String>,
    pub model: Option<String>,
    pub chunk_size_tokens: Option<u32>,
    pub chunk_overlap_tokens: Option<u32>,
    pub batch_size: Option<u32>,
}

/// How texts are embedded.
#[derive(Debug)]
pub struct EmbeddingConfig {
    pub enabled: bool,
    pub model: String,
    pub chunk_size_tokens: usize,
    pub chunk_overlap_tokens: usize,
    pub batch_size: Option<usize>,
}

/// A file that was not taken in.
#[derive(Debug, Clone)]
pub struct SkippedFile {
    pub path: String,
    pub reason: String,
    pub size: Option<u64>,
    pub message: Option<String>,
}

/// What is reported of a request.
#[derive(Debug, Clone)]
pub struct IngestResponse {
    pub root: String,
    pub database_path: String,
    pub database_size_bytes: u64,
    pub ingested_file_count: usize,
    pub skipped: Vec<SkippedFile>,
    pub deleted_paths: Vec<String>,
    pub duration_ms: u128,
    pub embedded_chunk_count: usize,
    pub embedding_model: Option<String>,
    pub embedding_backend: Option<String>,
    pub embedding_dimension: Option<u32>,
    pub embedding_latency_ms: Option<u128>,
    pub embedding_quantized: Option<bool>,
    pub graph_node_count: usize,
    pub graph_edge_count: usize,
    pub evicted: Option<EvictionReport>,
    pub reused_file_count: Option<usize>,
}

/// What was taken out of a database that had grown too large.
#[derive(Debug, Clone)]
pub struct EvictionReport {
    pub database_path: String,
    pub size_before: u64,
    pub size_after: u64,
    pub evicted_chunks: usize,
    pub evicted_nodes: usize,
}

/// A file that was read.
#[derive(Debug)]
pub struct ScannedFile {
    pub path: String,
    pub size: u64,
    pub modified_ms: i64,
    pub hash: String,
    pub stored_content: Option<String>,
    pub text_content: Option<String>,
}

/// A chunk of a file as the index stores it.
#[derive(Debug)]
pub struct ChunkRecord {
    pub id: String,
    pub path: String,
    pub chunk_index: i32,
    pub content: String,
    pub byte_start: i64,
    pub byte_end: i64,
    pub line_start: i64,
    pub line_end: i64,
}

/// A path that the request names.
#[derive(Debug)]
pub struct TargetEntry {
    pub relative: String,
    pub absolute: String,
}

// ---------------------------------------------------------------------------
// Settings
// ---------------------------------------------------------------------------

/// The least whole number that a request may give, and what it gets where it gives none.
pub open spec fn at_least_one(value: Option<u32>, otherwise: usize) -> usize {
    match value {
        Some(n) => if n == 0 {
            1
        } else {
            n as usize
        },
        None => otherwise,
    }
}

fn or_at_least_one(value: Option<u32>, otherwise: usize) -> (r: usize)
    ensures
        r == at_least_one(value, otherwise),
{
    match value {
        Some(n) => if n == 0 {
            1
        } else {
            n as usize
        },
        None => otherwise,
    }
}

/// How many tokens neighbouring chunks share: never more than a chunk has.
pub open spec fn overlap_tokens(params: EmbeddingParams) -> usize {
    let size = at_least_one(params.chunk_size_tokens, DEFAULT_CHUNK_SIZE_TOKENS);
    let asked = match params.chunk_overlap_tokens {
        Some(n) => n as usize,
        None => DEFAULT_CHUNK_OVERLAP_TOKENS,
    };
    if asked <= size {
        asked
    } else {
        size
    }
}

/// The request without a word on embedding.
pub open spec fn no_embedding_params() -> EmbeddingParams {
    EmbeddingParams {
        enabled: None,
        backend: None,
        model: None,
        chunk_size_tokens: None,
        chunk_overlap_tokens: None,
        batch_size: None,
    }
}

/// How texts are embedded, as the request says.
pub fn resolve_embedding_config(params: Option<EmbeddingParams>) -> (r: EmbeddingConfig)
    ensures
        ({
            let p = match params {
                Some(p) => p,
                None => no_embedding_params(),
            };
            &&& r.enabled == match p.enabled {
                Some(b) => b,
                None => true,
            }
            &&& r.model@ == match p.model {
                Some(m) => m@,
                None => DEFAULT_EMBEDDING_MODEL@,
            }
            &&& r.chunk_size_tokens == at_least_one(p.chunk_size_tokens, DEFAULT_CHUNK_SIZE_TOKENS)
            &&& r.chunk_overlap_tokens == overlap_tokens(p)
            &&& r.batch_size == Some(at_least_one(p.batch_size, DEFAULT_EMBEDDING_BATCH_SIZE))
        }),
        r.chunk_size_tokens >= 1,
        r.chunk_overlap_tokens <= r.chunk_size_tokens,
{
    let p = match params {
        Some(p) => p,
        None => EmbeddingParams {
            enabled: None,
            backend: None,
            model: None,
            chunk_size_tokens: None,
            chunk_overlap_tokens: None,
            batch_size: None,
        },
    };
    let enabled = match p.enabled {
        Some(b) => b,
        None => true,
    };
    let chunk_size_tokens: usize = or_at_least_one(p.chunk_size_tokens, DEFAULT_CHUNK_SIZE_TOKENS);
    let asked: usize = match p.chunk_overlap_tokens {
        Some(n) => n as usize,
        None => DEFAULT_CHUNK_OVERLAP_TOKENS,
    };
    let chunk_overlap_tokens: usize = if asked <= chunk_size_tokens {
        asked
    } else {
        chunk_size_tokens
    };
    let batch_size = Some(or_at_least_one(p.batch_size, DEFAULT_EMBEDDING_BATCH_SIZE));
    let model = match p.model {
        Some(m) => m,
        None => DEFAULT_EMBEDDING_MODEL.to_owned(),
    };
    EmbeddingConfig { enabled, model, chunk_size_tokens, chunk_overlap_tokens, batch_size }
}

/// The variant of FastEmbed that embeds the chunks.
pub fn embedding_variant(config: &EmbeddingConfig) -> (r: Result<String, EmbeddingError>)
    ensures
        match r {
            Ok(variant) => is_variant_for(variant@, trimmed(config.model@)),
            Err(EmbeddingError::Message(text)) => !is_fastembed_code(trimmed(config.model@))
                && text@ == crate::embedding::fastembed_refusal(trimmed(config.model@)),
        },
{
    parse_fastembed_model(trim_str(config.model.as_str()).as_str())
}

/// A root that begins at the root of the file system stays as it is, another one is
/// taken from inside the working directory.
pub fn resolve_root(root: &str, working_dir: &str) -> (r: String)
    ensures
        r@ == path_in(working_dir@, root@),
        is_rooted(working_dir@) ==> is_rooted(r@),
{
    join_path(working_dir, root)
}

/// What a request settles before anything is read.
#[derive(Debug)]
pub struct IngestSettings {
    pub root: String,
    pub included: Vec<String>,
    pub excluded: Vec<String>,
    pub database_path: String,
    pub max_file_size_bytes: Option<u64>,
    pub store_file_content: bool,
    pub auto_evict: bool,
    pub max_database_size_bytes: u64,
    pub embedding: EmbeddingConfig,
    pub targets: Vec<TargetEntry>,
}

/// The root that a request gets.
pub open spec fn root_of(root: Option<Seq<char>>, working_dir: Seq<char>) -> Seq<char> {
    path_in(
        working_dir,
        match root {
            Some(r) => r,
            None => "./"@,
        },
    )
}

/// The texts of an optional list, or others where there is none.
pub open spec fn list_or(list: Option<Vec<String>>, otherwise: Seq<Seq<char>>) -> Seq<Seq<char>> {
    match list {
        Some(v) => texts(v@),
        None => otherwise,
    }
}

/// What a request settles before anything is read.
pub fn ingest_settings(params: IngestParams, working_dir: &str) -> (r: IngestSettings)
    requires
        is_rooted(working_dir@),
    ensures
        is_rooted(r.root@),
        r.root@ == root_of(text_of(params.root), working_dir@),
        texts(r.included@) == list_or(params.included, default_include_globs()),
        texts(r.excluded@) == list_or(params.excluded, default_exclude_globs()),
        r.database_path@ == path_in(
            r.root@,
            match params.database_name {
                Some(name) => name@,
                None => DEFAULT_DB_FILENAME@,
            },
        ),
        r.max_file_size_bytes == params.max_file_size_bytes,
        r.store_file_content == match params.store_file_content {
            Some(b) => b,
            None => true,
        },
        r.auto_evict == match params.auto_evict {
            Some(b) => b,
            None => false,
        },
        r.max_database_size_bytes == match params.max_database_size_bytes {
            Some(n) => n,
            None => DEFAULT_MAX_DATABASE_SIZE_BYTES,
        },
        r.embedding.enabled == match params.embedding {
            Some(p) => match p.enabled {
                Some(b) => b,
                None => true,
            },
            None => true,
        },
        ({
            let p = match params.embedding {
                Some(p) => p,
                None => no_embedding_params(),
            };
            &&& r.embedding.model@ == match p.model {
                Some(m) => m@,
                None => DEFAULT_EMBEDDING_MODEL@,
            }
            &&& r.embedding.chunk_size_tokens == at_least_one(
                p.chunk_size_tokens,
                DEFAULT_CHUNK_SIZE_TOKENS,
            )
            &&& r.embedding.chunk_overlap_tokens == overlap_tokens(p)
            &&& r.embedding.batch_size == Some(
                at_least_one(p.batch_size, DEFAULT_EMBEDDING_BATCH_SIZE),
            )
        }),
        pairs(r.targets@) == targets_of(r.root@, list_or(params.paths, Seq::empty())),
{
    let IngestParams {
        root,
        included,
        excluded,
        database_name,
        max_file_size_bytes,
        store_file_content,
        paths,
        auto_evict,
        max_database_size_bytes,
        embedding,
    } = params;
    let root_param = match root {
        Some(r) => r,
        None => "./".to_owned(),
    };
    let root = resolve_root(root_param.as_str(), working_dir);
    let included = match included {
        Some(v) => v,
        None => included_by_default(),
    };
    let excluded = match excluded {
        Some(v) => v,
        None => excluded_by_default(),
    };
    let database_name = match database_name {
        Some(name) => name,
        None => DEFAULT_DB_FILENAME.to_owned(),
    };
    let database_path = join_path(root.as_str(), database_name.as_str());
    let store_file_content = match store_file_content {
        Some(b) => b,
        None => true,
    };
    let auto_evict = match auto_evict {
        Some(b) => b,
        None => false,
    };
    let max_database_size_bytes: u64 = match max_database_size_bytes {
        Some(n) => n,
        None => DEFAULT_MAX_DATABASE_SIZE_BYTES,
    };
    let embedding = resolve_embedding_config(embedding);
    let targets = resolve_target_entries(root.as_str(), paths);
    IngestSettings {
        root,
        included,
        excluded,
        database_path,
        max_file_size_bytes,
        store_file_content,
        auto_evict,
        max_database_size_bytes,
        embedding,
        targets,
    }
}

// ---------------------------------------------------------------------------
// Named paths
// ---------------------------------------------------------------------------

/// The relative and the absolute path of each entry.
pub open spec fn pairs(entries: Seq<TargetEntry>) -> Seq<(Seq<char>, Seq<char>)> {
    Seq::new(entries.len(), |i: int| (entries[i].relative@, entries[i].absolute@))
}

/// The entry that a path of the request stands for: `None` where it is blank, not below
/// the root, or the root itself.
pub open spec fn target_of(root: Seq<char>, raw: Seq<char>) -> Option<(Seq<char>, Seq<char>)> {
    let t = trimmed(raw);
    if t.len() == 0 {
        None
    } else {
        match below(root, path_in(root, t)) {
            Some(rest) => if rest.len() == 0 {
                None
            } else {
                Some((replaced_char(rest, '\\', '/'), path_in(root, t)))
            },
            None => None,
        }
    }
}

/// An entry has that relative path.
pub open spec fn has_relative(found: Seq<(Seq<char>, Seq<char>)>, relative: Seq<char>) -> bool {
    exists|i: int| 0 <= i < found.len() && (#[trigger] found[i]).0 == relative
}

/// The entries that the paths of the request stand for, without repetition.
pub open spec fn targets_of(root: Seq<char>, paths: Seq<Seq<char>>) -> Seq<(Seq<char>, Seq<char>)>
    decreases paths.len(),
{
    if paths.len() == 0 {
        Seq::empty()
    } else {
        let found = targets_of(root, paths.drop_last());
        match target_of(root, paths.last()) {
            Some(pair) => if has_relative(found, pair.0) {
                found
            } else {
                found.push(pair)
            },
            None => found,
        }
    }
}

/// The entry that a path of the request stands for.
fn resolve_target(root: &str, raw: &str) -> (r: Option<TargetEntry>)
    requires
        is_rooted(root@),
    ensures
        match r {
            Some(entry) => target_of(root@, raw@) == Some((entry.relative@, entry.absolute@)),
            None => target_of(root@, raw@) is None,
        },
{
    let t = trim_str(raw);
    if t.as_str().is_empty() {
        return None;
    }
    let absolute = join_path(root, t.as_str());
    match strip_dir(root, absolute.as_str()) {
        Some(rest) => if rest.as_str().is_empty() {
            None
        } else {
            Some(TargetEntry { relative: normalize_path(rest.as_str()), absolute })
        },
        None => None,
    }
}

/// Whether an entry has that relative path.
fn knows_relative(found: &Vec<TargetEntry>, relative: &str) -> (r: bool)
    ensures
        r == has_relative(pairs(found@), relative@),
{
    let mut i: usize = 0;
    while i < found.len()
        invariant
            i <= found@.len(),
            forall|k: int| 0 <= k < i ==> (#[trigger] pairs(found@)[k]).0 != relative@,
        decreases found.len() - i,
    {
        assert(pairs(found@)[i as int].0 == found@[i as int].relative@);
        if crate::text::same_text(found[i].relative.as_str(), relative) {
            return true;
        }
        i += 1;
    }
    false
}

/// The entries that the paths of the request stand for, without repetition.
pub fn resolve_target_entries(root: &str, paths: Option<Vec<String>>) -> (r: Vec<TargetEntry>)
    requires
        is_rooted(root@),
    ensures
        pairs(r@) == targets_of(root@, list_or(paths, Seq::empty())),
{
    let mut out: Vec<TargetEntry> = Vec::new();
    assert(pairs(out@) =~= targets_of(root@, Seq::empty()));
    let Some(list) = paths else {
        return out;
    };
    let ghost all = texts(list@);
    let mut i: usize = 0;
    assert(all.take(0) =~= Seq::<Seq<char>>::empty());
    while i < list.len()
        invariant
            i <= list@.len(),
            is_rooted(root@),
            all == texts(list@),
            pairs(out@) == targets_of(root@, all.take(i as int)),
        decreases list.len() - i,
    {
        proof {
            assert(all.take(i + 1).drop_last() =~= all.take(i as int));
            assert(all.take(i + 1).last() == list@[i as int]@);
        }
        if let Some(entry) = resolve_target(root, list[i].as_str()) {
            if !knows_relative(&out, entry.relative.as_str()) {
                let ghost before = out@;
                out.push(entry);
                assert(pairs(out@) =~= pairs(before).push((entry.relative@, entry.absolute@)));
            }
        }
        i += 1;
    }
    assert(all.take(i as int) =~= all);
    out
}

/// Each named path is found once, and each entry has a relative path.
pub proof fn law_targets_distinct(root: Seq<char>, paths: Seq<Seq<char>>)
    ensures
        forall|i: int, j: int|
            0 <= i < j < targets_of(root, paths).len() ==> (#[trigger] targets_of(root, paths)[i]).0
                != (#[trigger] targets_of(root, paths)[j]).0,
        forall|i: int|
            0 <= i < targets_of(root, paths).len() ==> (#[trigger] targets_of(
                root,
                paths,
            )[i]).0.len() > 0,
    decreases paths.len(),
{
    if paths.len() > 0 {
        law_targets_distinct(root, paths.drop_last());
        let found = targets_of(root, paths.drop_last());
        let all = targets_of(root, paths);
        assert forall|i: int, j: int| 0 <= i < j < all.len() implies (#[trigger] all[i]).0 != (
        #[trigger] all[j]).0 by {
            assert(all[i] == found[i]);
        }
    }
}

/// An earlier existing entry leads to the same place.
pub open spec fn walked_before(
    found: Seq<(Seq<char>, Seq<char>)>,
    exist: Seq<bool>,
    i: int,
) -> bool {
    exists|k: int|
        0 <= k < i && exist[k] && same_place((#[trigger] found[k]).1, found[i].1)
}

/// The entries that are walked: those that exist, each place once.
pub open spec fn walked(found: Seq<(Seq<char>, Seq<char>)>, exist: Seq<bool>, n: int) -> Seq<int>
    decreases n,
{
    if n <= 0 {
        Seq::empty()
    } else if exist[n - 1] && !walked_before(found, exist, n - 1) {
        walked(found, exist, n - 1).push(n - 1)
    } else {
        walked(found, exist, n - 1)
    }
}

/// The positions of the entries that are walked, given which of them exist.
pub fn entries_to_walk(targets: &Vec<TargetEntry>, exist: &Vec<bool>) -> (r: Vec<usize>)
    requires
        targets@.len() == exist@.len(),
    ensures
        r@.len() == walked(pairs(targets@), exist@, targets@.len() as int).len(),
        forall|k: int|
            0 <= k < r@.len() ==> #[trigger] r@[k] == walked(
                pairs(targets@),
                exist@,
                targets@.len() as int,
            )[k],
{
    let mut out: Vec<usize> = Vec::new();
    let mut i: usize = 0;
    while i < targets.len()
        invariant
            i <= targets@.len(),
            targets@.len() == exist@.len(),
            out@.len() == walked(pairs(targets@), exist@, i as int).len(),
            forall|k: int|
                0 <= k < out@.len() ==> #[trigger] out@[k] == walked(
                    pairs(targets@),
                    exist@,
                    i as int,
                )[k],
        decreases targets.len() - i,
    {
        let mut seen = false;
        let mut k: usize = 0;
        while k < i
            invariant
                k <= i < targets@.len(),
                targets@.len() == exist@.len(),
                seen == (exists|m: int|
                    0 <= m < k && exist@[m] && same_place(
                        (#[trigger] pairs(targets@)[m]).1,
                        pairs(targets@)[i as int].1,
                    )),
            decreases i - k,
        {
            assert(pairs(targets@)[k as int].1 == targets@[k as int].absolute@);
            assert(pairs(targets@)[i as int].1 == targets@[i as int].absolute@);
            if exist[k] && is_same_place(
                targets[k].absolute.as_str(),
                targets[i].absolute.as_str(),
            ) {
                seen = true;
            }
            k += 1;
        }
        if exist[i] && !seen {
            out.push(i);
        }
        i += 1;
    }
    out
}

/// The entry is reported as missing.
pub open spec fn reported_missing(file: SkippedFile, relative: Seq<char>) -> bool {
    file.path@ == relative && file.reason@ == "target_path_missing"@ && file.size is None
        && file.message is None
}

/// The positions of the entries that do not exist.
pub open spec fn missing(exist: Seq<bool>, n: int) -> Seq<int>
    decreases n,
{
    if n <= 0 {
        Seq::empty()
    } else if !exist[n - 1] {
        missing(exist, n - 1).push(n - 1)
    } else {
        missing(exist, n - 1)
    }
}

/// Reports the named paths that do not exist, behind what was skipped before.
pub fn report_missing(targets: &Vec<TargetEntry>, exist: &Vec<bool>, skipped: &mut Vec<SkippedFile>)
    requires
        targets@.len() == exist@.len(),
    ensures
        final(skipped)@.len() == old(skipped)@.len() + missing(
            exist@,
            targets@.len() as int,
        ).len(),
        final(skipped)@.take(old(skipped)@.len() as int) == old(skipped)@,
        forall|k: int|
            0 <= k < missing(exist@, targets@.len() as int).len() ==> reported_missing(
                #[trigger] final(skipped)@[old(skipped)@.len() + k],
                targets@[missing(exist@, targets@.len() as int)[k]].relative@,
            ),
{
    let ghost before = skipped@;
    let mut i: usize = 0;
    assert(skipped@.take(before.len() as int) =~= before);
    while i < targets.len()
        invariant
            i <= targets@.len(),
            targets@.len() == exist@.len(),
            skipped@.len() == before.len() + missing(exist@, i as int).len(),
            skipped@.take(before.len() as int) == before,
            forall|k: int|
                0 <= k < missing(exist@, i as int).len() ==> reported_missing(
                    #[trigger] skipped@[before.len() + k],
                    targets@[missing(exist@, i as int)[k]].relative@,
                ),
        decreases targets.len() - i,
    {
        if !exist[i] {
            let ghost previous = skipped@;
            skipped.push(
                SkippedFile {
                    path: targets[i].relative.clone(),
                    reason: "target_path_missing".to_owned(),
                    size: None,
                    message: None,
                },
            );
            assert(skipped@.take(before.len() as int) =~= previous.take(before.len() as int));
        }
        i += 1;
    }
}

// ---------------------------------------------------------------------------
// Walking
// ---------------------------------------------------------------------------

/// The path of a file below the root; the path itself where it is not below it.
pub open spec fn relative_of(root: Seq<char>, path: Seq<char>) -> Seq<char> {
    match below(root, path) {
        Some(rest) => rest,
        None => path,
    }
}

/// The path under which a file that a walk came upon is taken in; `None` where the
/// patterns leave it out.
pub fn select_file(
    root: &str,
    path: &str,
    included: &Option<globset::GlobSet>,
    excluded: &Option<globset::GlobSet>,
) -> (r: Option<String>)
    requires
        is_rooted(root@),
    ensures
        r is Some ==> r->0@ == replaced_char(relative_of(root@, path@), '\\', '/'),
        included is None && excluded is None ==> r is Some,
        portable(relative_of(root@, path@)) && set_portable(*included) && set_portable(*excluded)
            ==> r is Some == wanted(
            patterns_of(*included),
            patterns_of(*excluded),
            relative_of(root@, path@),
        ),
{
    let relative = match strip_dir(root, path) {
        Some(rest) => rest,
        None => path.to_owned(),
    };
    if is_wanted(included, excluded, relative.as_str()) {
        Some(normalize_path(relative.as_str()))
    } else {
        None
    }
}

/// A step of the walk that failed.
pub fn walk_failure(root: &str, message: String) -> (r: SkippedFile)
    ensures
        r.path@ == root@,
        r.reason@ == "walk_error"@,
        r.size is None,
        r.message == Some(message),
{
    SkippedFile {
        path: root.to_owned(),
        reason: "walk_error".to_owned(),
        size: None,
        message: Some(message),
    }
}

/// The size of a file that may be read; else why it is skipped.
pub fn check_size(path: &str, size: Result<u64, String>, limit: Option<u64>) -> (r: Result<
    u64,
    SkippedFile,
>)
    ensures
        match size {
            Ok(n) => match limit {
                Some(max) => if n > max {
                    r matches Err(file) && file.path@ == path@ && file.reason@ == "max_file_size"@
                        && file.size == Some(n) && file.message is None
                } else {
                    r == Ok::<u64, SkippedFile>(n)
                },
                None => r == Ok::<u64, SkippedFile>(n),
            },
            Err(message) => r matches Err(file) && file.path@ == path@ && file.reason@
                == "metadata_error"@ && file.size is None && file.message == Some(message),
        },
{
    match size {
        Ok(n) => {
            if let Some(max) = limit {
                if n > max {
                    return Err(
                        SkippedFile {
                            path: path.to_owned(),
                            reason: "max_file_size".to_owned(),
                            size: Some(n),
                            message: None,
                        },
                    );
                }
            }
            Ok(n)
        },
        Err(message) => Err(
            SkippedFile {
                path: path.to_owned(),
                reason: "metadata_error".to_owned(),
                size: None,
                message: Some(message),
            },
        ),
    }
}

/// The bytes are no text: a zero byte stands among them.
pub fn is_binary(bytes: &[u8]) -> (r: bool)
    ensures
        r == bytes@.contains(0u8),
{
    let mut i: usize = 0;
    while i < bytes.len()
        invariant
            i <= bytes@.len(),
            forall|k: int| 0 <= k < i ==> bytes@[k] != 0,
        decreases bytes.len() - i,
    {
        if bytes[i] == 0 {
            assert(bytes@[i as int] == 0);
            return true;
        }
        i += 1;
    }
    false
}

/// A file as it was read: its digest and, unless it is binary, its text, which is also
/// stored where contents are stored. A file that could not be read is skipped.
pub fn read_file(
    path: String,
    size: u64,
    modified_ms: i64,
    bytes: Result<Vec<u8>, String>,
    store_file_content: bool,
) -> (r: Result<ScannedFile, SkippedFile>)
    ensures
        match bytes {
            Ok(content) => r matches Ok(file) && {
                &&& file.path == path
                &&& file.size == size
                &&& file.modified_ms == modified_ms
                &&& file.hash@ == sha256_text(content@)
                &&& text_of(file.text_content) == (if content@.contains(0u8) {
                    None
                } else {
                    Some(lossy_text(content@))
                })
                &&& text_of(file.stored_content) == (if store_file_content {
                    text_of(file.text_content)
                } else {
                    None
                })
            },
            Err(message) => r matches Err(file) && file.path == path && file.reason@
                == "read_error"@ && file.size == Some(size) && file.message == Some(message),
        },
{
    match bytes {
        Ok(content) => {
            let hash = sha256_hex(content.as_slice());
            let text_content = if is_binary(content.as_slice()) {
                None
            } else {
                Some(read_lossy(content.as_slice()))
            };
            let stored_content = if store_file_content {
                match &text_content {
                    Some(text) => Some(text.clone()),
                    None => None,
                }
            } else {
                None
            };
            Ok(ScannedFile { path, size, modified_ms, hash, stored_content, text_content })
        },
        Err(message) => Err(
            SkippedFile {
                path,
                reason: "read_error".to_owned(),
                size: Some(size),
                message: Some(message),
            },
        ),
    }
}

// ---------------------------------------------------------------------------
// What holds of a request's settings and targets
// ---------------------------------------------------------------------------

/// A size of none is one, every other size is as it was asked for, and without a word it is
/// the default. Two chunks never share more than a chunk has, and else what was asked for:
/// 32 of 256 tokens, where nothing was.
pub proof fn law_chunk_settings(params: EmbeddingParams, n: u32, otherwise: usize)
    ensures
        n > 0 ==> at_least_one(Some(n), otherwise) == n,
        at_least_one(Some(0), otherwise) == 1,
        at_least_one(None, otherwise) == otherwise,
        ({
            let size = at_least_one(params.chunk_size_tokens, 256);
            &&& overlap_tokens(params) <= size
            &&& params.chunk_overlap_tokens matches Some(m) ==> m <= size ==> overlap_tokens(params)
                == m
            &&& params.chunk_overlap_tokens matches Some(m) ==> m > size ==> overlap_tokens(params)
                == size
            &&& params.chunk_overlap_tokens is None && size >= 32 ==> overlap_tokens(params) == 32
        }),
{
}

/// Without a root a request is about the working directory, and a root that begins at the
/// root of the file system is taken as it is.
pub proof fn law_root(root: Seq<char>, working_dir: Seq<char>)
    ensures
        root.len() > 0 && root[0] == '/' ==> root_of(Some(root), working_dir) == root,
        root_of(None, working_dir) == root_of(Some("./"@), working_dir),
{
}

/// A list that a request gives is taken as it is, and only without one the default holds.
pub proof fn law_list_or(list: Vec<String>, otherwise: Seq<Seq<char>>)
    ensures
        list_or(Some(list), otherwise) == texts(list@),
        list_or(None, otherwise) == otherwise,
{
}

/// A path of a request stands for the file at that path below the root; a blank path, the
/// root itself and what is not below the root stand for nothing.
pub proof fn law_target(root: Seq<char>, raw: Seq<char>)
    ensures
        trimmed(raw).len() == 0 ==> target_of(root, raw) is None,
        below(root, path_in(root, trimmed(raw))) is None ==> target_of(root, raw) is None,
        below(root, path_in(root, trimmed(raw))) == Some(Seq::<char>::empty()) ==> target_of(
            root,
            raw,
        ) is None,
        target_of(root, raw) matches Some((relative, absolute)) ==> relative.len() > 0
            && !relative.contains('\\') && absolute == path_in(root, trimmed(raw)) && (below(
            root,
            absolute,
        ) matches Some(rest) && rest.len() == relative.len()),
        trimmed(raw).len() > 0 && (below(root, path_in(root, trimmed(raw))) matches Some(rest)
            && rest.len() > 0) ==> target_of(root, raw) is Some,
{
}

/// A plain path below the root is known by that path.
pub proof fn law_plain_target(root: Seq<char>, path: Seq<char>)
    requires
        is_rooted(root),
        root.last() != '/',
        trimmed(path) == path,
        path.len() > 0,
        !path.contains('\\'),
        crate::paths::is_real(crate::pieces::split_on(path, '/')[0]),
        crate::paths::is_real(crate::pieces::split_on(path, '/').last()),
    ensures
        target_of(root, path) == Some((path, root + seq!['/'] + path)),
{
    crate::paths::law_below_again(root, path);
    crate::paths::law_path_in(root, path);
    assert(!is_rooted(path)) by {
        if is_rooted(path) {
            crate::pieces::lemma_position_of(path, '/');
            assert(crate::pieces::position_of(path, '/') == 0);
            assert(crate::pieces::split_on(path, '/')[0] =~= Seq::<char>::empty());
        }
    }
    assert(replaced_char(path, '\\', '/') =~= path) by {
        assert forall|i: int| 0 <= i < path.len() implies path[i] != '\\' by {
            if path[i] == '\\' {
                assert(path.contains('\\'));
            }
        }
    }
}

/// Every path of a request that stands for something is among the targets, and each target
/// stands for one of the paths.
pub proof fn law_targets_complete(root: Seq<char>, paths: Seq<Seq<char>>)
    ensures
        forall|i: int|
            0 <= i < paths.len() ==> (target_of(root, #[trigger] paths[i]) matches Some(pair)
                ==> has_relative(targets_of(root, paths), pair.0)),
        forall|k: int|
            0 <= k < targets_of(root, paths).len() ==> exists|i: int|
                0 <= i < paths.len() && target_of(root, #[trigger] paths[i]) == Some(
                    #[trigger] targets_of(root, paths)[k],
                ),
    decreases paths.len(),
{
    if paths.len() > 0 {
        let front = paths.drop_last();
        law_targets_complete(root, front);
        let before = targets_of(root, front);
        let all = targets_of(root, paths);
        assert forall|r: Seq<char>| has_relative(before, r) implies #[trigger] has_relative(all, r) by {
            let k = choose|k: int| 0 <= k < before.len() && (#[trigger] before[k]).0 == r;
            assert(all[k] == before[k]);
        }
        assert forall|i: int| 0 <= i < paths.len() implies (target_of(
            root,
            #[trigger] paths[i],
        ) matches Some(pair) ==> has_relative(all, pair.0)) by {
            if let Some(pair) = target_of(root, paths[i]) {
                if i < front.len() {
                    assert(front[i] == paths[i]);
                    assert(has_relative(before, pair.0));
                } else if !has_relative(before, pair.0) {
                    assert(all[before.len() as int] == pair);
                }
            }
        }
        assert forall|k: int| 0 <= k < all.len() implies exists|i: int|
            0 <= i < paths.len() && target_of(root, #[trigger] paths[i]) == Some(
                #[trigger] all[k],
            ) by {
            if k < before.len() {
                let i = choose|i: int|
                    0 <= i < front.len() && target_of(root, #[trigger] front[i]) == Some(before[k]);
                assert(paths[i] == front[i]);
            } else {
                assert(target_of(root, paths[paths.len() - 1]) == Some(all[k]));
            }
        }
    }
}

/// An entry is walked exactly where it exists and no earlier one that exists leads to the
/// same place; they are walked in their order.
pub proof fn law_walked(found: Seq<(Seq<char>, Seq<char>)>, exist: Seq<bool>, n: int)
    requires
        n <= found.len(),
        n <= exist.len(),
    ensures
        forall|i: int|
            0 <= i < n ==> (#[trigger] walked(found, exist, n).contains(i) <==> exist[i] && !(
            exists|k: int|
                0 <= k < i && exist[k] && same_place((#[trigger] found[k]).1, found[i].1))),
        forall|k: int|
            0 <= k < walked(found, exist, n).len() ==> 0 <= #[trigger] walked(found, exist, n)[k] < n,
        forall|j: int, k: int|
            0 <= j < k < walked(found, exist, n).len() ==> walked(found, exist, n)[j] < walked(
                found,
                exist,
                n,
            )[k],
    decreases n,
{
    if n > 0 {
        law_walked(found, exist, n - 1);
        let before = walked(found, exist, n - 1);
        let all = walked(found, exist, n);
        assert forall|i: int| 0 <= i < n implies (#[trigger] all.contains(i) <==> exist[i] && !(
        exists|k: int|
            0 <= k < i && exist[k] && same_place((#[trigger] found[k]).1, found[i].1))) by {
            if before.contains(i) {
                let k = choose|k: int| 0 <= k < before.len() && before[k] == i;
                assert(all[k] == i);
            }
            if i < n - 1 {
                if all.contains(i) {
                    let k = choose|k: int| 0 <= k < all.len() && all[k] == i;
                    assert(before[k] == i);
                }
            } else if all.len() > before.len() {
                assert(all[before.len() as int] == i);
            } else if all.contains(i) {
                let k = choose|k: int| 0 <= k < all.len() && all[k] == i;
                assert(before[k] == i);
            }
        }
    }
}

/// What is reported as missing are the entries that do not exist, all of them and in their
/// order.
pub proof fn law_missing(exist: Seq<bool>, n: int)
    requires
        n <= exist.len(),
    ensures
        forall|i: int| 0 <= i < n ==> (#[trigger] missing(exist, n).contains(i) <==> !exist[i]),
        forall|k: int|
            0 <= k < missing(exist, n).len() ==> 0 <= #[trigger] missing(exist, n)[k] < n,
        forall|j: int, k: int|
            0 <= j < k < missing(exist, n).len() ==> missing(exist, n)[j] < missing(exist, n)[k],
    decreases n,
{
    if n > 0 {
        law_missing(exist, n - 1);
        let before = missing(exist, n - 1);
        let all = missing(exist, n);
        assert forall|i: int| 0 <= i < n implies (#[trigger] all.contains(i) <==> !exist[i]) by {
            if before.contains(i) {
                let k = choose|k: int| 0 <= k < before.len() && before[k] == i;
                assert(all[k] == i);
            }
            if i < n - 1 {
                if all.contains(i) {
                    let k = choose|k: int| 0 <= k < all.len() && all[k] == i;
                    assert(before[k] == i);
                }
            } else if all.len() > before.len() {
                assert(all[before.len() as int] == i);
            } else if all.contains(i) {
                let k = choose|k: int| 0 <= k < all.len() && all[k] == i;
                assert(before[k] == i);
            }
        }
    }
}

} // verus!
