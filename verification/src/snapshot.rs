//! Snapshots of a workspace: which files are stored, and how.

use vstd::prelude::*;
use vstd::utf8::{decode_utf8, valid_utf8};
use crate::bundle_graph::text_of;
use crate::decimal::{decimal, push_decimal, push_wide_decimal};
use crate::digest::{read_strict, sha256_hex, sha256_text};
use crate::git_timeline::append_texts;
use crate::globs::{is_wanted, patterns_of, portable, set_portable, wanted, GlobProblem};
use crate::ingest::{is_binary, DEFAULT_DB_FILENAME};
use crate::paths::{below_any, named_parts, real_parts, strip_prefix};
use crate::pieces::{join, joined, push_text, split_on, texts};

verus! {

/// The largest file that is stored where nothing is set, in bytes.
pub const DEFAULT_MAX_FILE_SIZE: u64 = 8_388_608;

/// How a snapshot is taken.
#[derive(Debug)]
pub struct IngestOptions {
    pub included: Vec<String>,
    pub excluded: Vec<String>,
    pub database_name: String,
    pub max_file_size: Option<u64>,
    pub store_content: bool,
}

impl Default for IngestOptions {
    fn default() -> (r: Self)
        ensures
            texts(r.included@) == seq!["**/*"@],
            r.excluded@.len() == 0,
            r.database_name@ == DEFAULT_DB_FILENAME@,
            r.max_file_size == Some(DEFAULT_MAX_FILE_SIZE),
            r.store_content,
    {
        let mut included: Vec<String> = Vec::new();
        push_text(&mut included, "**/*".to_owned());
        assert(texts(included@) =~= seq!["**/*"@]);
        IngestOptions {
            included,
            excluded: Vec::new(),
            database_name: DEFAULT_DB_FILENAME.to_owned(),
            max_file_size: Some(DEFAULT_MAX_FILE_SIZE),
            store_content: true,
        }
    }
}

/// What a request says of a snapshot.
#[derive(Debug)]
pub struct IngestArgs {
    pub root: Option<String>,
    pub included: Option<Vec<String>>,
    pub excluded: Option<Vec<String>>,
    pub database_name: Option<String>,
    pub max_file_size_bytes: Option<u64>,
    pub store_file_content: Option<bool>,
}

/// How a snapshot is taken: as the request says, else as usual. The size is limited as the
/// request says alone.
pub fn snapshot_options(args: IngestArgs, default_database: &str) -> (r: IngestOptions)
    ensures
        match args.included {
            Some(list) => r.included == list,
            None => texts(r.included@) == seq!["**/*"@],
        },
        match args.excluded {
            Some(list) => r.excluded == list,
            None => r.excluded@.len() == 0,
        },
        r.database_name@ == (match text_of(args.database_name) {
            Some(name) => name,
            None => default_database@,
        }),
        r.max_file_size == args.max_file_size_bytes,
        r.store_content == (match args.store_file_content {
            Some(store) => store,
            None => true,
        }),
{
    let mut options = IngestOptions::default();
    if let Some(list) = args.included {
        options.included = list;
    }
    if let Some(list) = args.excluded {
        options.excluded = list;
    }
    options.database_name = match args.database_name {
        Some(name) => name,
        None => default_database.to_owned(),
    };
    options.max_file_size = args.max_file_size_bytes;
    if let Some(store) = args.store_file_content {
        options.store_content = store;
    }
    options
}

// ---------------------------------------------------------------------------
// Patterns
// ---------------------------------------------------------------------------

/// The name of the database, or the usual one where it is empty.
pub open spec fn database_of(name: Seq<char>) -> Seq<char> {
    if name.len() == 0 {
        DEFAULT_DB_FILENAME@
    } else {
        name
    }
}

/// The name of the database, or the usual one where it is empty.
pub fn snapshot_database(name: &str) -> (r: String)
    ensures
        r@ == database_of(name@),
{
    if name.is_empty() {
        DEFAULT_DB_FILENAME.to_owned()
    } else {
        name.to_owned()
    }
}

/// What is never stored.
pub open spec fn always_excluded() -> Seq<Seq<char>> {
    seq![
        ".git/**"@,
        "dist/**"@,
        "target/**"@,
        "node_modules/**"@,
        "build/**"@,
        "logs/**"@,
        "tmp/**"@,
    ]
}

/// What is never stored.
pub fn default_excludes() -> (r: Vec<String>)
    ensures
        texts(r@) == always_excluded(),
{
    let mut out: Vec<String> = Vec::new();
    push_text(&mut out, ".git/**".to_owned());
    push_text(&mut out, "dist/**".to_owned());
    push_text(&mut out, "target/**".to_owned());
    push_text(&mut out, "node_modules/**".to_owned());
    push_text(&mut out, "build/**".to_owned());
    push_text(&mut out, "logs/**".to_owned());
    push_text(&mut out, "tmp/**".to_owned());
    assert(texts(out@) =~= always_excluded());
    out
}

/// The patterns of what is stored: all files where none is given.
pub fn include_patterns(given: Vec<String>) -> (r: Vec<String>)
    ensures
        texts(r@) == (if given@.len() == 0 {
            seq!["**/*"@]
        } else {
            texts(given@)
        }),
{
    let mut out = given;
    if out.len() == 0 {
        push_text(&mut out, "**/*".to_owned());
        assert(texts(out@) =~= seq!["**/*"@]);
    }
    out
}

/// The patterns of what is not stored: those that are given, those that always hold, and
/// the files of the database.
pub fn exclude_patterns(given: Vec<String>, database: &str) -> (r: Vec<String>)
    ensures
        texts(r@) == (texts(given@) + always_excluded()).push(database@).push(
            database@ + "-journal"@,
        ),
{
    let mut out = given;
    let usual = default_excludes();
    append_texts(&mut out, &usual);
    push_text(&mut out, database.to_owned());
    let mut journal = database.to_owned();
    journal.append("-journal");
    push_text(&mut out, journal);
    out
}

/// Why the patterns cannot be used.
pub fn pattern_problem(problem: &GlobProblem) -> (r: String)
    ensures
        r@ == match *problem {
            GlobProblem::Pattern { pattern, message } => "Invalid glob pattern: "@ + pattern@,
            GlobProblem::Whole { message } => "Failed to build glob set: "@ + message@,
        },
{
    match problem {
        GlobProblem::Pattern { pattern, message } => {
            let mut out = "Invalid glob pattern: ".to_owned();
            out.append(pattern.as_str());
            out
        },
        GlobProblem::Whole { message } => {
            let mut out = "Failed to build glob set: ".to_owned();
            out.append(message.as_str());
            out
        },
    }
}

// ---------------------------------------------------------------------------
// Files
// ---------------------------------------------------------------------------

/// The path of an entry below the root, by its parts that name something.
pub open spec fn entry_name(root: Seq<char>, path: Seq<char>) -> Option<Seq<char>> {
    match below_any(root, path) {
        Some(rest) => Some(joined(real_parts(split_on(rest, '/')), "/"@)),
        None => None,
    }
}

/// The path of an entry below the root.
pub fn relative_entry(root: &str, path: &str) -> (r: Option<String>)
    ensures
        text_of(r) == entry_name(root@, path@),
{
    match strip_prefix(root, path) {
        Some(rest) => {
            let parts = named_parts(rest.as_str());
            Some(join(parts.as_slice(), "/"))
        },
        None => None,
    }
}

/// Whether a directory is walked into, or a file looked at: the root is, and what no
/// pattern excludes. It is stated for texts without a backslash, as systems differ in what
/// that means.
pub fn keeps_entry(relative: &Option<String>, excluded: &Option<globset::GlobSet>) -> (r: bool)
    ensures
        match text_of(*relative) {
            None => !r,
            Some(path) => {
                &&& path.len() == 0 ==> r
                &&& path.len() > 0 && portable(path) && set_portable(*excluded) ==> r == wanted(
                    None,
                    patterns_of(*excluded),
                    path,
                )
            },
        },
{
    match relative {
        Some(path) => if path.as_str().is_empty() {
            true
        } else {
            is_wanted(&None, excluded, path.as_str())
        },
        None => false,
    }
}

/// What becomes of a file, by its path.
#[derive(Debug, Clone, Copy, PartialEq, Eq, Structural)]
pub enum EntryStep {
    /// It is passed over.
    Ignore,
    /// It is passed over and counted.
    Skip,
    /// It is read.
    Take,
}

/// What becomes of a file, by its path.
pub open spec fn step_of(
    path: Seq<char>,
    included: Option<Seq<Seq<char>>>,
    excluded: Option<Seq<Seq<char>>>,
) -> EntryStep {
    if path.len() == 0 {
        EntryStep::Ignore
    } else if !wanted(None, excluded, path) {
        EntryStep::Skip
    } else if !wanted(included, None, path) {
        EntryStep::Ignore
    } else {
        EntryStep::Take
    }
}

/// What becomes of a file, by its path. It is stated for texts without a backslash, as
/// systems differ in what that means.
pub fn classify_entry(
    relative: &str,
    included: &Option<globset::GlobSet>,
    excluded: &Option<globset::GlobSet>,
) -> (r: EntryStep)
    ensures
        relative@.len() == 0 ==> r == EntryStep::Ignore,
        portable(relative@) && set_portable(*included) && set_portable(*excluded) ==> r == step_of(
            relative@,
            patterns_of(*included),
            patterns_of(*excluded),
        ),
{
    if relative.is_empty() {
        return EntryStep::Ignore;
    }
    if !is_wanted(&None, excluded, relative) {
        return EntryStep::Skip;
    }
    if !is_wanted(included, &None, relative) {
        return EntryStep::Ignore;
    }
    EntryStep::Take
}

/// The largest file that is stored.
pub fn size_limit(options: &IngestOptions) -> (r: u64)
    ensures
        r == (match options.max_file_size {
            Some(n) => n,
            None => DEFAULT_MAX_FILE_SIZE,
        }),
{
    match options.max_file_size {
        Some(n) => n,
        None => DEFAULT_MAX_FILE_SIZE,
    }
}

/// What is said of a file that is too large; `None` where it is not.
pub fn oversize_message(path: &str, size: u64, max: u64) -> (r: Option<String>)
    ensures
        match r {
            Some(m) => size > max && m@ == "Skipping "@ + path@ + " (size "@ + decimal(size as nat)
                + " exceeds max "@ + decimal(max as nat) + ")"@,
            None => size <= max,
        },
{
    if size <= max {
        return None;
    }
    let mut out = "Skipping ".to_owned();
    out.append(path);
    out.append(" (size ");
    push_decimal(&mut out, size);
    out.append(" exceeds max ");
    push_decimal(&mut out, max);
    out.append(")");
    Some(out)
}

/// The first second that a date can stand for, counted from the start of 1970.
pub const FIRST_SECOND: i64 = -8_334_601_228_800;

/// The last second that a date can stand for, counted from the start of 1970.
pub const LAST_SECOND: i64 = 8_210_266_876_799;

/// Calls `Utc.timestamp_opt` and `DateTime::timestamp_millis` of the `chrono` crate: the
/// milliseconds of an instant, where there is a date for it.
#[verifier::external_body]
fn instant_millis(secs: i64, nanos: u32) -> (r: Option<i64>)
    requires
        nanos < 1_000_000_000,
    ensures
        match r {
            Some(ms) => FIRST_SECOND <= secs <= LAST_SECOND && ms == secs * 1000 + nanos as int
                / 1_000_000,
            None => !(FIRST_SECOND <= secs <= LAST_SECOND),
        },
{
    <chrono::Utc as chrono::TimeZone>::timestamp_opt(&chrono::Utc, secs, nanos).single().map(
        |date| date.timestamp_millis(),
    )
}

/// A file as it is stored. `modified_ms` counts from the start of 1970.
#[derive(Debug)]
pub struct FileRecord {
    pub path: String,
    pub size: u64,
    pub modified_ms: Option<i64>,
    pub hash: String,
    pub content: Option<String>,
}

/// The instant at which a file was changed, since the start of 1970.
#[derive(Debug, Clone, Copy, PartialEq, Eq, Structural)]
pub struct FileTime {
    pub secs: u64,
    pub nanos: u32,
}

/// The milliseconds of an instant, where there is a date for it.
pub open spec fn millis_of(time: FileTime) -> Option<int> {
    let secs = time.secs as i64;
    if FIRST_SECOND <= secs <= LAST_SECOND {
        Some(secs * 1000 + time.nanos as int / 1_000_000)
    } else {
        None
    }
}

/// A file as it is stored: its text where it is wanted and the file holds one.
pub fn make_record(
    path: String,
    size: u64,
    modified: Option<FileTime>,
    data: Vec<u8>,
    store_content: bool,
) -> (r: FileRecord)
    requires
        modified matches Some(t) ==> t.nanos < 1_000_000_000,
    ensures
        r.path == path,
        r.size == size,
        r.hash@ == sha256_text(data@),
        match modified {
            Some(t) => match r.modified_ms {
                Some(ms) => millis_of(t) == Some(ms as int),
                None => millis_of(t) is None,
            },
            None => r.modified_ms is None,
        },
        text_of(r.content) == (if store_content && !data@.contains(0u8) && valid_utf8(data@) {
            Some(decode_utf8(data@))
        } else {
            None
        }),
{
    let modified_ms = match modified {
        Some(time) => instant_millis(time.secs as i64, time.nanos),
        None => None,
    };
    let hash = sha256_hex(data.as_slice());
    let content = if store_content && !is_binary(data.as_slice()) {
        read_strict(data)
    } else {
        None
    };
    FileRecord { path, size, modified_ms, hash, content }
}

/// What became of a file.
#[derive(Debug)]
pub enum EntryOutcome {
    Stored(FileRecord),
    Skipped,
}

/// The files that are stored, how many were passed over, and how many bytes were read.
#[derive(Debug)]
pub struct Tally {
    pub records: Vec<FileRecord>,
    pub skipped: usize,
    pub total_bytes: u64,
}

/// The files among the outcomes.
pub open spec fn stored_of(outcomes: Seq<EntryOutcome>) -> Seq<FileRecord>
    decreases outcomes.len(),
{
    if outcomes.len() == 0 {
        Seq::empty()
    } else {
        match outcomes.last() {
            EntryOutcome::Stored(record) => stored_of(outcomes.drop_last()).push(record),
            EntryOutcome::Skipped => stored_of(outcomes.drop_last()),
        }
    }
}

/// How many files were passed over.
pub open spec fn skipped_of(outcomes: Seq<EntryOutcome>) -> nat {
    (outcomes.len() - stored_of(outcomes).len()) as nat
}

/// The bytes of the files, as a machine word holds them.
pub open spec fn bytes_of(records: Seq<FileRecord>) -> u64
    decreases records.len(),
{
    if records.len() == 0 {
        0
    } else {
        bytes_of(records.drop_last()).wrapping_add(records.last().size)
    }
}

/// Every file that was looked at is either stored or counted as passed over.
pub proof fn law_every_entry_counted(outcomes: Seq<EntryOutcome>)
    ensures
        stored_of(outcomes).len() + skipped_of(outcomes) == outcomes.len(),
    decreases outcomes.len(),
{
    if outcomes.len() > 0 {
        law_every_entry_counted(outcomes.drop_last());
    }
}

/// The files that are stored, how many were passed over, and how many bytes were read.
pub fn tally(outcomes: Vec<EntryOutcome>) -> (r: Tally)
    ensures
        r.records@ == stored_of(outcomes@),
        r.skipped == skipped_of(outcomes@),
        r.total_bytes == bytes_of(stored_of(outcomes@)),
{
    let ghost all = outcomes@;
    let count: usize = outcomes.len();
    let mut records: Vec<FileRecord> = Vec::new();
    let mut skipped: usize = 0;
    let mut total_bytes: u64 = 0;
    let ghost mut n: int = 0;
    assert(all.take(0) =~= Seq::<EntryOutcome>::empty());
    for outcome in it: outcomes
        invariant
            it.seq() == all,
            n == it.index(),
            0 <= n <= all.len(),
            records@ == stored_of(all.take(n)),
            skipped + records@.len() == n,
            all.len() == count,
            total_bytes == bytes_of(records@),
    {
        proof {
            assert(all.take(n + 1).drop_last() =~= all.take(n));
            assert(all.take(n + 1).last() == outcome);
        }
        match outcome {
            EntryOutcome::Stored(record) => {
                total_bytes = total_bytes.wrapping_add(record.size);
                let ghost before = records@;
                records.push(record);
                assert(records@.drop_last() =~= before);
            },
            EntryOutcome::Skipped => {
                skipped += 1;
            },
        }
        proof {
            n = n + 1;
        }
    }
    proof {
        assert(all.take(n) =~= all);
        law_every_entry_counted(all);
    }
    Tally { records, skipped, total_bytes }
}

/// A run that took a snapshot. Times count in milliseconds from the start of 1970.
#[derive(Debug)]
pub struct IngestRun {
    pub id: String,
    pub root: String,
    pub started_at_ms: i64,
    pub finished_at_ms: i64,
    pub file_count: usize,
    pub skipped_count: usize,
    pub store_content: bool,
}

/// A snapshot that was taken.
#[derive(Debug)]
pub struct IngestSummary {
    pub run: IngestRun,
    pub database_path: String,
    pub total_bytes: u64,
    pub duration_ms: u128,
}

/// What is said of a snapshot that was taken.
pub fn snapshot_message(summary: &IngestSummary) -> (r: String)
    ensures
        r@ == "Indexed "@ + decimal(summary.run.file_count as nat) + " files in "@ + decimal(
            summary.duration_ms as nat,
        ) + " ms ("@ + decimal(summary.run.skipped_count as nat)
            + " skipped). Database stored at "@ + summary.database_path@,
{
    let mut out = "Indexed ".to_owned();
    push_decimal(&mut out, summary.run.file_count as u64);
    out.append(" files in ");
    push_wide_decimal(&mut out, summary.duration_ms);
    out.append(" ms (");
    push_decimal(&mut out, summary.run.skipped_count as u64);
    out.append(" skipped). Database stored at ");
    out.append(summary.database_path.as_str());
    out
}

/// What is said of the last snapshot, where there is one. `finished_at` is when it was
/// taken.
pub fn snapshot_status(summary: &Option<IngestSummary>, finished_at: &str) -> (r: String)
    ensures
        r@ == match *summary {
            Some(s) => "Last ingest indexed "@ + decimal(s.run.file_count as nat)
                + " files with "@ + decimal(s.run.skipped_count as nat) + " skipped at "@
                + finished_at@,
            None =>
                "No ingest has been completed yet. Run ingest_codebase to create an index."@,
        },
{
    match summary {
        Some(s) => {
            let mut out = "Last ingest indexed ".to_owned();
            push_decimal(&mut out, s.run.file_count as u64);
            out.append(" files with ");
            push_decimal(&mut out, s.run.skipped_count as u64);
            out.append(" skipped at ");
            out.append(finished_at);
            out
        },
        None => "No ingest has been completed yet. Run ingest_codebase to create an index.".to_owned(),
    }
}

/// A file is taken exactly where its path is wanted, and what is left out is passed over
/// whatever is asked for.
pub proof fn law_entry_step(
    path: Seq<char>,
    included: Option<Seq<Seq<char>>>,
    excluded: Option<Seq<Seq<char>>>,
    others: Option<Seq<Seq<char>>>,
)
    ensures
        step_of(path, included, excluded) is Take <==> path.len() > 0 && wanted(
            included,
            excluded,
            path,
        ),
        step_of(path, included, excluded) is Skip <==> step_of(path, others, excluded) is Skip,
        path.len() > 0 && !wanted(None, excluded, path) ==> step_of(path, included, excluded)
            is Skip,
        path.len() > 0 && wanted(None, excluded, path) && !wanted(included, None, path)
            ==> step_of(path, included, excluded) is Ignore,
        path.len() == 0 ==> step_of(path, included, excluded) is Ignore,
{
}

/// The database of a snapshot is the named one, and it always has a name.
pub proof fn law_database_named(name: Seq<char>)
    ensures
        database_of(name).len() > 0,
        name.len() > 0 ==> database_of(name) == name,
        name.len() == 0 ==> database_of(name) == ".mcp-index.sqlite"@,
{
    reveal_strlit(".mcp-index.sqlite");
}

proof fn lemma_stored_parts(a: Seq<EntryOutcome>, b: Seq<EntryOutcome>)
    ensures
        stored_of(a + b) == stored_of(a) + stored_of(b),
    decreases b.len(),
{
    if b.len() == 0 {
        assert(a + b =~= a);
        assert(stored_of(a) + stored_of(b) =~= stored_of(a));
    } else {
        assert((a + b).drop_last() =~= a + b.drop_last());
        lemma_stored_parts(a, b.drop_last());
        match b.last() {
            EntryOutcome::Stored(record) => {
                assert(stored_of(a) + stored_of(b.drop_last()).push(record) =~= (stored_of(a)
                    + stored_of(b.drop_last())).push(record));
            },
            EntryOutcome::Skipped => {},
        }
    }
}

/// A file that was stored counts where it stands among the others, and one that was passed
/// over counts among those alone.
pub proof fn law_stored(front: Seq<EntryOutcome>, record: FileRecord, back: Seq<EntryOutcome>)
    ensures
        stored_of(front + seq![EntryOutcome::Stored(record)] + back) == stored_of(front) + seq![
            record,
        ] + stored_of(back),
        stored_of(front + seq![EntryOutcome::Skipped] + back) == stored_of(front) + stored_of(
            back,
        ),
        skipped_of(front + seq![EntryOutcome::Stored(record)] + back) == skipped_of(front)
            + skipped_of(back),
        skipped_of(front + seq![EntryOutcome::Skipped] + back) == skipped_of(front) + skipped_of(
            back,
        ) + 1,
{
    let kept = seq![EntryOutcome::Stored(record)];
    let lost = seq![EntryOutcome::Skipped];
    assert(kept.drop_last() =~= Seq::<EntryOutcome>::empty());
    assert(lost.drop_last() =~= Seq::<EntryOutcome>::empty());
    assert(stored_of(kept) =~= seq![record]) by {
        assert(stored_of(kept.drop_last()) =~= Seq::<FileRecord>::empty());
    }
    assert(stored_of(lost) =~= Seq::<FileRecord>::empty());
    lemma_stored_parts(front, kept);
    lemma_stored_parts(front + kept, back);
    lemma_stored_parts(front, lost);
    lemma_stored_parts(front + lost, back);
    assert(stored_of(front) + Seq::<FileRecord>::empty() =~= stored_of(front));
    law_every_entry_counted(front);
    law_every_entry_counted(back);
    law_every_entry_counted(front + kept + back);
    law_every_entry_counted(front + lost + back);
}

/// The bytes of files are those of its first ones and those of the others, as long as a
/// machine word holds them.
pub proof fn law_bytes(a: Seq<FileRecord>, b: Seq<FileRecord>, record: FileRecord)
    ensures
        bytes_of(seq![record]) == record.size,
        bytes_of(a) + bytes_of(b) <= u64::MAX ==> bytes_of(a + b) == bytes_of(a) + bytes_of(b),
        bytes_of(a) + bytes_of(b) > u64::MAX ==> bytes_of(a + b) == bytes_of(a) + bytes_of(b)
            - u64::MAX - 1,
    decreases b.len(),
{
    assert(seq![record].drop_last() =~= Seq::<FileRecord>::empty());
    assert(bytes_of(Seq::<FileRecord>::empty()) == 0);
    assert(bytes_of(seq![record].drop_last()) == 0);
    if b.len() == 0 {
        assert(a + b =~= a);
    } else {
        assert((a + b).drop_last() =~= a + b.drop_last());
        law_bytes(a, b.drop_last(), record);
    }
}

/// The milliseconds of an instant are the last ones that it has passed.
pub proof fn law_millis(time: FileTime)
    requires
        time.nanos < 1_000_000_000,
        time.secs <= i64::MAX,
    ensures
        millis_of(time) is Some <==> time.secs <= LAST_SECOND,
        millis_of(time) matches Some(ms) ==> ms * 1_000_000 <= time.secs * 1_000_000_000
            + time.nanos < (ms + 1) * 1_000_000,
{
}

/// A file is passed over exactly where it is larger than the limit, which is 8 MiB where none
/// is set.
pub proof fn law_size_limit(
    options: &IngestOptions,
    limit: u64,
    path: &str,
    size: u64,
    told: Option<String>,
)
    requires
        call_ensures(size_limit, (options,), limit),
        call_ensures(oversize_message, (path, size, limit), told),
    ensures
        options.max_file_size matches Some(n) ==> limit == n,
        options.max_file_size is None ==> limit == 8 * 1024 * 1024,
        told is Some <==> size > limit,
        told matches Some(m) ==> ("Skipping "@ + path@).is_prefix_of(m@),
{
    if let Some(m) = told {
        let head = "Skipping "@ + path@;
        assert(m@.subrange(0, head.len() as int) =~= head);
    }
}

/// A snapshot is taken as the request says; without a word it holds all files and their
/// contents.
pub proof fn law_snapshot_options(args: IngestArgs, database: &str, options: IngestOptions)
    requires
        call_ensures(snapshot_options, (args, database), options),
    ensures
        args.included matches Some(list) ==> options.included == list,
        args.included is None ==> texts(options.included@) == seq!["**/*"@],
        args.excluded matches Some(list) ==> options.excluded == list,
        args.excluded is None ==> options.excluded@.len() == 0,
        args.database_name matches Some(name) ==> options.database_name@ == name@,
        args.database_name is None ==> options.database_name@ == database@,
        args.store_file_content is None ==> options.store_content,
        args.store_file_content matches Some(store) ==> options.store_content == store,
        options.max_file_size == args.max_file_size_bytes,
{
}

} // verus!
