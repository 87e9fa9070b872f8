//! The commits of a log.

use vstd::prelude::*;
use vstd::slice::slice_subrange;
use crate::bundle_graph::text_of;
use crate::bundle_snippets::opt_view;
use crate::decimal::{decimal, push_decimal, push_signed_decimal, signed_decimal};
use crate::git_log::{
    aggregate_directory_churn, are_churns, are_top_files, change_models, changes_in, deleted,
    inserted, nets_agree, parse_changes, sum_changes, to_top_files, ChangeModel,
};
use crate::git_remote::{
    build_pull_request_url, parse_pull_request_number, request_number, request_url, wide,
};
use crate::git_timeline::{
    append_texts, RepositoryTimelineDiffSummary, RepositoryTimelineDirectoryChurn,
    RepositoryTimelineEntry, RepositoryTimelineTopFile, TimelineIdentity, GIT_LOG_FIELD_SEPARATOR,
    GIT_LOG_RECORD_SEPARATOR,
};
use crate::pieces::{
    begins_with, filled, join, joined, keep_filled, lines_of, push_text, split, split_on,
    str_lines, str_starts_with, texts,
};
use crate::text::{chars_of, trim_str, trimmed};

verus! {

/// How many files a commit lists among those that it changed most.
pub const TOP_FILES: usize = 3;

/// How many directories a commit lists among those that it changed most.
pub const TOP_DIRECTORIES: usize = 5;

// ---------------------------------------------------------------------------
// Highlights
// ---------------------------------------------------------------------------

/// The ending of a word for so many things.
pub open spec fn plural(n: nat) -> Seq<char> {
    if n == 1 {
        ""@
    } else {
        "s"@
    }
}

fn push_plural(out: &mut String, n: usize)
    ensures
        final(out)@ == old(out)@ + plural(n as nat),
{
    if n == 1 {
        out.append("");
    } else {
        out.append("s");
    }
}

/// What is said of the pull request.
pub open spec fn request_lines(number: Option<i64>, url: Option<Seq<char>>) -> Seq<Seq<char>> {
    match (number, url) {
        (Some(n), Some(u)) => seq!["PR #"@ + signed_decimal(n as int) + " · "@ + u],
        (Some(n), None) => seq!["PR #"@ + signed_decimal(n as int)],
        _ => Seq::empty(),
    }
}

/// What is said of a merge.
pub open spec fn merge_lines(is_merge: bool) -> Seq<Seq<char>> {
    if is_merge {
        seq!["Merge commit"@]
    } else {
        Seq::empty()
    }
}

/// What is said of the whole change.
pub open spec fn diff_line(d: RepositoryTimelineDiffSummary) -> Seq<char> {
    "Diff +"@ + signed_decimal(d.insertions as int) + "/-"@ + signed_decimal(d.deletions as int)
        + " across "@ + decimal(d.files_changed as nat) + " file"@ + plural(d.files_changed as nat)
}

/// What is said of a file.
pub open spec fn file_line(f: RepositoryTimelineTopFile) -> Seq<char> {
    f.path@ + ": +"@ + signed_decimal(f.insertions as int) + "/-"@ + signed_decimal(
        f.deletions as int,
    )
}

/// What is said of the files that changed most.
pub open spec fn file_lines(files: Seq<RepositoryTimelineTopFile>) -> Seq<Seq<char>> {
    Seq::new(files.len(), |i: int| file_line(files[i]))
}

/// What is said of the directory that changed most.
pub open spec fn directory_lines(churns: Seq<RepositoryTimelineDirectoryChurn>) -> Seq<Seq<char>> {
    if churns.len() == 0 {
        Seq::empty()
    } else {
        let d = churns[0];
        seq![
            d.path@ + " hotspot: +"@ + signed_decimal(d.insertions as int) + "/-"@
                + signed_decimal(d.deletions as int) + " ("@ + decimal(d.files_changed as nat)
                + " file"@ + plural(d.files_changed as nat) + ")"@,
        ]
    }
}

/// What is said of a commit.
pub open spec fn highlights_of(e: RepositoryTimelineEntry) -> Seq<Seq<char>> {
    request_lines(e.pull_request_number, text_of(e.pull_request_url)) + merge_lines(e.is_merge)
        + seq![diff_line(e.diff_summary)] + file_lines(e.top_files@) + directory_lines(
        e.directory_churn@,
    )
}

fn write_request(number: Option<i64>, url: &Option<String>) -> (r: Vec<String>)
    ensures
        texts(r@) == request_lines(number, text_of(*url)),
{
    let mut out: Vec<String> = Vec::new();
    if let Some(n) = number {
        let mut line = "PR #".to_owned();
        push_signed_decimal(&mut line, n);
        if let Some(u) = url {
            line.append(" · ");
            line.append(u.as_str());
        }
        push_text(&mut out, line);
    }
    assert(texts(out@) =~= request_lines(number, text_of(*url)));
    out
}

fn write_files(files: &Vec<RepositoryTimelineTopFile>) -> (r: Vec<String>)
    ensures
        texts(r@) == file_lines(files@),
{
    let ghost goal = file_lines(files@);
    let mut out: Vec<String> = Vec::new();
    let mut i: usize = 0;
    assert(texts(out@) =~= goal.take(0));
    while i < files.len()
        invariant
            i <= files@.len(),
            goal == file_lines(files@),
            texts(out@) == goal.take(i as int),
        decreases files.len() - i,
    {
        let mut line = files[i].path.clone();
        line.append(": +");
        push_signed_decimal(&mut line, files[i].insertions);
        line.append("/-");
        push_signed_decimal(&mut line, files[i].deletions);
        assert(goal.take(i + 1) =~= goal.take(i as int).push(line@));
        push_text(&mut out, line);
        i += 1;
    }
    assert(goal.take(i as int) =~= goal);
    out
}

fn write_directory(churns: &Vec<RepositoryTimelineDirectoryChurn>) -> (r: Vec<String>)
    ensures
        texts(r@) == directory_lines(churns@),
{
    let mut out: Vec<String> = Vec::new();
    if churns.len() > 0 {
        let d = &churns[0];
        let mut line = d.path.clone();
        line.append(" hotspot: +");
        push_signed_decimal(&mut line, d.insertions);
        line.append("/-");
        push_signed_decimal(&mut line, d.deletions);
        line.append(" (");
        push_decimal(&mut line, d.files_changed as u64);
        line.append(" file");
        push_plural(&mut line, d.files_changed);
        line.append(")");
        push_text(&mut out, line);
    }
    assert(texts(out@) =~= directory_lines(churns@));
    out
}

fn write_diff(d: &RepositoryTimelineDiffSummary) -> (r: String)
    ensures
        r@ == diff_line(*d),
{
    let mut line = "Diff +".to_owned();
    push_signed_decimal(&mut line, d.insertions);
    line.append("/-");
    push_signed_decimal(&mut line, d.deletions);
    line.append(" across ");
    push_decimal(&mut line, d.files_changed as u64);
    line.append(" file");
    push_plural(&mut line, d.files_changed);
    line
}

/// What is said of a commit.
pub fn build_highlights(entry: &RepositoryTimelineEntry) -> (r: Vec<String>)
    ensures
        texts(r@) == highlights_of(*entry),
{
    let mut out = write_request(entry.pull_request_number, &entry.pull_request_url);
    let ghost first = texts(out@);
    if entry.is_merge {
        push_text(&mut out, "Merge commit".to_owned());
    }
    assert(texts(out@) =~= first + merge_lines(entry.is_merge));
    let ghost second = texts(out@);
    push_text(&mut out, write_diff(&entry.diff_summary));
    assert(texts(out@) =~= second + seq![diff_line(entry.diff_summary)]);
    let files = write_files(&entry.top_files);
    append_texts(&mut out, &files);
    let directory = write_directory(&entry.directory_churn);
    append_texts(&mut out, &directory);
    out
}

// ---------------------------------------------------------------------------
// Records
// ---------------------------------------------------------------------------

/// The lines of a record.
pub open spec fn record_lines(raw: Seq<char>) -> Seq<Seq<char>> {
    lines_of(trimmed(raw))
}

/// The fields of a record.
pub open spec fn record_fields(raw: Seq<char>) -> Seq<Seq<char>> {
    split_on(record_lines(raw)[0], GIT_LOG_FIELD_SEPARATOR)
}

/// The record is that of a commit: it has all fields.
pub open spec fn is_commit(raw: Seq<char>) -> bool {
    record_lines(raw).len() > 0 && record_fields(raw).len() >= 9
}

/// The first line of a diff begins with these words.
pub open spec fn starts_diff(line: Seq<char>) -> bool {
    begins_with(line, "diff --git "@)
}

/// The first line that starts a diff, or the number of lines.
pub open spec fn diff_start(lines: Seq<Seq<char>>) -> int
    decreases lines.len(),
{
    if lines.len() == 0 || starts_diff(lines[0]) {
        0
    } else {
        1 + diff_start(lines.drop_first())
    }
}

/// The lines of a record that are read as statistics.
pub open spec fn stat_lines(raw: Seq<char>, stats: bool, diffs: bool) -> Seq<Seq<char>> {
    let body = record_lines(raw).skip(1);
    if !stats {
        Seq::empty()
    } else if diffs {
        body.take(diff_start(body))
    } else {
        body
    }
}

/// The changes that a record tells of.
pub open spec fn record_changes(raw: Seq<char>, stats: bool, diffs: bool) -> Seq<ChangeModel> {
    changes_in(stat_lines(raw, stats, diffs))
}

/// The diff that a record holds.
pub open spec fn record_diff(raw: Seq<char>, diffs: bool) -> Option<Seq<char>> {
    let body = record_lines(raw).skip(1);
    let at = diff_start(body);
    if diffs && at < body.len() && trimmed(joined(body.skip(at), "\n"@)).len() > 0 {
        Some(trimmed(joined(body.skip(at), "\n"@)))
    } else {
        None
    }
}

/// The identity has that name and address.
pub open spec fn is_identity(i: TimelineIdentity, name: Seq<char>, email: Seq<char>) -> bool {
    i.name@ == name && i.email@ == email
}

/// The entry is the commit of a record.
pub open spec fn is_entry_of(
    e: RepositoryTimelineEntry,
    raw: Seq<char>,
    stats: bool,
    diffs: bool,
    remote_url: Option<Seq<char>>,
) -> bool {
    let f = record_fields(raw);
    let changes = record_changes(raw, stats, diffs);
    let n = changes.len() as int;
    &&& e.sha@ == f[0]
    &&& is_identity(e.author, f[1], f[2])
    &&& e.author_date@ == f[3]
    &&& is_identity(e.committer, f[4], f[5])
    &&& e.committer_date@ == f[6]
    &&& e.subject@ == f[7]
    &&& e.summary@ == f[7]
    &&& texts(e.parents@) == filled(split_on(f[8], ' '))
    &&& e.is_merge == (e.parents@.len() > 1)
    &&& wide(e.pull_request_number) == request_number(f[7])
    &&& text_of(e.pull_request_url) == request_url(remote_url, request_number(f[7]))
    &&& change_models(e.file_changes@) == changes
    &&& nets_agree(e.file_changes@)
    &&& e.files_changed == n
    &&& e.insertions == inserted(changes, n)
    &&& e.deletions == deleted(changes, n)
    &&& e.diff_summary == (RepositoryTimelineDiffSummary {
        files_changed: e.files_changed,
        insertions: e.insertions,
        deletions: e.deletions,
        net: e.insertions.wrapping_sub(e.deletions),
    })
    &&& text_of(e.diff) == record_diff(raw, diffs)
    &&& e.diff_preview is None
    &&& e.diff_pointer is None
    &&& e.captured_at is None
    &&& are_top_files(e.top_files@, changes, TOP_FILES as nat)
    &&& are_churns(e.directory_churn@, changes, TOP_DIRECTORIES as nat)
    &&& texts(e.highlights@) == highlights_of(e)
}

fn find_diff_start(lines: &Vec<String>, from: usize) -> (r: usize)
    requires
        from <= lines@.len(),
    ensures
        from <= r <= lines@.len(),
        r == from + diff_start(texts(lines@).skip(from as int)),
{
    let ghost all = texts(lines@);
    let mut i: usize = from;
    while i < lines.len() && !str_starts_with(lines[i].as_str(), "diff --git ")
        invariant
            from <= i <= lines@.len(),
            all == texts(lines@),
            from + diff_start(all.skip(from as int)) == i + diff_start(all.skip(i as int)),
        decreases lines.len() - i,
    {
        assert(all[i as int] == lines@[i as int]@);
        assert(all.skip(i as int).drop_first() =~= all.skip(i + 1));
        i += 1;
    }
    proof {
        if i < lines@.len() {
            assert(all.skip(i as int)[0] == lines@[i as int]@);
        }
    }
    i
}

/// The commit of a record.
fn parse_record(raw: &str, stats: bool, diffs: bool, remote_url: Option<&str>) -> (r: Option<
    RepositoryTimelineEntry,
>)
    ensures
        match r {
            Some(e) => is_commit(raw@) && is_entry_of(e, raw@, stats, diffs, opt_view(remote_url)),
            None => !is_commit(raw@),
        },
{
    let record = trim_str(raw);
    let lines = str_lines(record.as_str());
    let ghost all = texts(lines@);
    assert(all.len() == lines@.len());
    if lines.len() == 0 {
        return None;
    }
    assert(all[0] == lines@[0]@);
    let header = chars_of(lines[0].as_str());
    let fields = split(header.as_slice(), GIT_LOG_FIELD_SEPARATOR);
    let ghost f = texts(fields@);
    assert(f.len() == fields@.len());
    if fields.len() < 9 {
        return None;
    }
    assert forall|k: int| 0 <= k < 9 implies f[k] == (#[trigger] fields@[k])@ by {}
    let parent_chars = chars_of(fields[8].as_str());
    let parent_parts = split(parent_chars.as_slice(), ' ');
    let parents = keep_filled(&parent_parts);
    let is_merge = parents.len() > 1;
    let ghost body = all.skip(1);
    let at = find_diff_start(&lines, 1);
    proof {
        assert(all.subrange(1, at as int) =~= body.take(diff_start(body)));
        assert(all.subrange(1, all.len() as int) =~= body);
        assert(all.skip(at as int) =~= body.skip(diff_start(body)));
    }
    let stat_end: usize = if !stats {
        1
    } else if diffs {
        at
    } else {
        lines.len()
    };
    assert(all.subrange(1, 1) =~= Seq::<Seq<char>>::empty());
    let file_changes = parse_changes(&lines, 1, stat_end);
    let ghost changes = record_changes(raw@, stats, diffs);
    assert(change_models(file_changes@) == changes);
    assert(file_changes@.len() == changes.len());
    let (insertions, deletions) = sum_changes(&file_changes);
    let diff = if diffs && at < lines.len() {
        let patch_lines = slice_subrange(lines.as_slice(), at, lines.len());
        assert(texts(patch_lines@) =~= all.skip(at as int));
        let patch = trim_str(join(patch_lines, "\n").as_str());
        if patch.as_str().is_empty() {
            None
        } else {
            Some(patch)
        }
    } else {
        None
    };
    let top_files = to_top_files(&file_changes, TOP_FILES);
    let directory_churn = aggregate_directory_churn(&file_changes, TOP_DIRECTORIES);
    let files_changed = file_changes.len();
    let diff_summary = RepositoryTimelineDiffSummary {
        files_changed,
        insertions,
        deletions,
        net: insertions.wrapping_sub(deletions),
    };
    let pull_request_number = parse_pull_request_number(fields[7].as_str());
    let pull_request_url = build_pull_request_url(remote_url, pull_request_number);
    let mut entry = RepositoryTimelineEntry {
        sha: fields[0].clone(),
        subject: fields[7].clone(),
        summary: fields[7].clone(),
        author: TimelineIdentity { name: fields[1].clone(), email: fields[2].clone() },
        author_date: fields[3].clone(),
        committer: TimelineIdentity { name: fields[4].clone(), email: fields[5].clone() },
        committer_date: fields[6].clone(),
        parents,
        is_merge,
        pull_request_number,
        files_changed,
        insertions,
        deletions,
        file_changes,
        diff,
        diff_preview: None,
        diff_pointer: None,
        top_files,
        directory_churn,
        diff_summary,
        highlights: Vec::new(),
        pull_request_url,
        captured_at: None,
    };
    let highlights = build_highlights(&entry);
    entry.highlights = highlights;
    Some(entry)
}

/// The records that are those of commits.
pub open spec fn commit_records(records: Seq<Seq<char>>) -> Seq<Seq<char>>
    decreases records.len(),
{
    if records.len() == 0 {
        records
    } else if is_commit(records.last()) {
        commit_records(records.drop_last()).push(records.last())
    } else {
        commit_records(records.drop_last())
    }
}

/// The commits of a log: one for each record that has all fields, in the order of the log.
pub fn parse_git_log(
    output: &str,
    include_file_stats: bool,
    include_diffs: bool,
    remote_url: Option<&str>,
) -> (r: Vec<RepositoryTimelineEntry>)
    ensures
        ({
            let commits = commit_records(split_on(output@, GIT_LOG_RECORD_SEPARATOR));
            &&& r@.len() == commits.len()
            &&& forall|i: int|
                0 <= i < r@.len() ==> is_entry_of(
                    #[trigger] r@[i],
                    commits[i],
                    include_file_stats,
                    include_diffs,
                    opt_view(remote_url),
                )
        }),
{
    let v = chars_of(output);
    let records = split(v.as_slice(), GIT_LOG_RECORD_SEPARATOR);
    let ghost all = texts(records@);
    let ghost remote = opt_view(remote_url);
    let mut out: Vec<RepositoryTimelineEntry> = Vec::new();
    let mut i: usize = 0;
    while i < records.len()
        invariant
            i <= records@.len(),
            all == texts(records@),
            remote == opt_view(remote_url),
            out@.len() == commit_records(all.take(i as int)).len(),
            forall|k: int|
                0 <= k < out@.len() ==> is_entry_of(
                    #[trigger] out@[k],
                    commit_records(all.take(i as int))[k],
                    include_file_stats,
                    include_diffs,
                    remote,
                ),
        decreases records.len() - i,
    {
        proof {
            assert(all.take(i + 1).drop_last() =~= all.take(i as int));
            assert(all.take(i + 1).last() == records@[i as int]@);
        }
        if let Some(entry) = parse_record(
            records[i].as_str(),
            include_file_stats,
            include_diffs,
            remote_url,
        ) {
            out.push(entry);
        }
        i += 1;
    }
    assert(all.take(i as int) =~= all);
    out
}

// ---------------------------------------------------------------------------
// What a record tells
// ---------------------------------------------------------------------------

/// A record without a body, from its fields.
pub open spec fn record_of(fields: Seq<Seq<char>>) -> Seq<char> {
    joined(fields, seq!['\u{1f}'])
}

proof fn lemma_one_line(s: Seq<char>)
    requires
        s.len() > 0,
        !s.contains('\n'),
    ensures
        lines_of(s) == seq![s],
{
    crate::pieces::lemma_position_of(s, '\n');
    let p = crate::pieces::position_of(s, '\n');
    if p < s.len() {
        assert(s.contains(s[p]));
    }
    assert(lines_of(s) =~= seq![s]);
}

/// The nine fields of a record stand for: the hash; name, address and date of the author;
/// name, address and date of the committer; the subject; and the parents, with a space
/// between each two. A commit with two parents or more is a merge.
pub proof fn law_record_read(
    e: RepositoryTimelineEntry,
    fields: Seq<Seq<char>>,
    stats: bool,
    diffs: bool,
    remote_url: Option<Seq<char>>,
)
    requires
        fields.len() == 9,
        forall|k: int| 0 <= k < 9 ==> !(#[trigger] fields[k]).contains('\u{1f}'),
        !record_of(fields).contains('\n'),
        record_of(fields).len() > 0,
        !crate::text::is_white_space(record_of(fields)[0]),
        !crate::text::is_white_space(record_of(fields).last()),
        is_entry_of(e, record_of(fields), stats, diffs, remote_url),
    ensures
        is_commit(record_of(fields)),
        e.sha@ == fields[0],
        e.author.name@ == fields[1],
        e.author.email@ == fields[2],
        e.author_date@ == fields[3],
        e.committer.name@ == fields[4],
        e.committer.email@ == fields[5],
        e.committer_date@ == fields[6],
        e.subject@ == fields[7],
        e.summary@ == fields[7],
        texts(e.parents@) == filled(split_on(fields[8], ' ')),
        e.is_merge <==> e.parents@.len() >= 2,
        e.file_changes@.len() == 0,
        e.diff is None,
{
    let raw = record_of(fields);
    crate::text::law_trimmed_stays(raw);
    lemma_one_line(raw);
    crate::pieces::law_joined_split(fields, '\u{1f}');
    assert(record_fields(raw) == fields);
    let body = record_lines(raw).skip(1);
    assert(body =~= Seq::<Seq<char>>::empty());
    assert(stat_lines(raw, stats, diffs) =~= Seq::<Seq<char>>::empty());
    assert(change_models(e.file_changes@).len() == 0);
}

/// A record with fewer than nine fields is no commit, and one with nine is.
pub proof fn law_commit_fields(raw: Seq<char>)
    ensures
        trimmed(raw).len() == 0 ==> !is_commit(raw),
        record_lines(raw).len() > 0 ==> (is_commit(raw) <==> split_on(
            lines_of(trimmed(raw))[0],
            '\u{1f}',
        ).len() >= 9),
{
    if trimmed(raw).len() == 0 {
        assert(trimmed(raw) =~= Seq::<char>::empty());
    }
}

/// The diff of a record begins with the first line that starts one, and the statistics end in
/// front of it.
pub proof fn law_diff_start(lines: Seq<Seq<char>>)
    ensures
        0 <= diff_start(lines) <= lines.len(),
        diff_start(lines) < lines.len() ==> "diff --git "@.is_prefix_of(lines[diff_start(lines)]),
        forall|i: int|
            0 <= i < diff_start(lines) ==> !"diff --git "@.is_prefix_of(#[trigger] lines[i]),
    decreases lines.len(),
{
    if lines.len() > 0 {
        crate::pieces::law_occurrence(lines[0], "diff --git "@);
        if !starts_diff(lines[0]) {
            let rest = lines.drop_first();
            law_diff_start(rest);
            assert forall|i: int| 0 <= i < diff_start(lines) implies !"diff --git "@.is_prefix_of(
                #[trigger] lines[i],
            ) by {
                if i > 0 {
                    assert(rest[i - 1] == lines[i]);
                }
            }
        }
    }
}

/// Statistics are read only where they were asked for, and never from the diff. A diff is
/// read only where it was asked for, up to the end of the record.
pub proof fn law_record_parts(raw: Seq<char>, stats: bool, diffs: bool)
    ensures
        !stats ==> stat_lines(raw, stats, diffs).len() == 0,
        stats && !diffs ==> stat_lines(raw, stats, diffs) == record_lines(raw).skip(1),
        stats && diffs ==> stat_lines(raw, stats, diffs) == record_lines(raw).skip(1).take(
            diff_start(record_lines(raw).skip(1)),
        ),
        !diffs ==> record_diff(raw, diffs) is None,
        record_diff(raw, diffs) matches Some(d) ==> d.len() > 0 && d == trimmed(
            joined(record_lines(raw).skip(1).skip(diff_start(record_lines(raw).skip(1))), "\n"@),
        ),
{
}

/// The commits of a log are the records that are commits, in their order.
pub proof fn law_commit_records(records: Seq<Seq<char>>)
    ensures
        commit_records(records) == records.filter(|r: Seq<char>| is_commit(r)),
    decreases records.len(),
{
    reveal(Seq::filter);
    if records.len() > 0 {
        law_commit_records(records.drop_last());
    } else {
        assert(commit_records(records) =~= Seq::empty());
        assert(records.filter(|r: Seq<char>| is_commit(r)) =~= Seq::empty());
    }
}

/// What an entry says of its changes is what they are together: their number, their
/// insertions, their deletions, and the net of these. The diff's summary repeats it.
pub proof fn law_entry_sums(
    e: RepositoryTimelineEntry,
    raw: Seq<char>,
    stats: bool,
    diffs: bool,
    remote_url: Option<Seq<char>>,
)
    requires
        is_entry_of(e, raw, stats, diffs, remote_url),
    ensures
        e.files_changed == e.file_changes@.len(),
        e.insertions == inserted(change_models(e.file_changes@), e.file_changes@.len() as int),
        e.deletions == deleted(change_models(e.file_changes@), e.file_changes@.len() as int),
        e.diff_summary.files_changed == e.files_changed,
        e.diff_summary.insertions == e.insertions,
        e.diff_summary.deletions == e.deletions,
        i64::MIN <= e.insertions - e.deletions <= i64::MAX ==> e.diff_summary.net == e.insertions
            - e.deletions,
        e.top_files@.len() <= 3,
        e.directory_churn@.len() <= 5,
{
    assert(change_models(e.file_changes@).len() == e.file_changes@.len());
}

/// What is said of a commit: its pull request first, where it has one; that it is a merge,
/// where it is one; the sums of the diff; one line for each top file; and the directory
/// with most changes, where there is one.
pub proof fn law_highlights(e: RepositoryTimelineEntry)
    ensures
        ({
            let a: int = if e.pull_request_number is Some {
                1
            } else {
                0
            };
            let b: int = if e.is_merge {
                1
            } else {
                0
            };
            let d: int = if e.directory_churn@.len() > 0 {
                1
            } else {
                0
            };
            let h = highlights_of(e);
            &&& h.len() == a + b + 1 + e.top_files@.len() + d
            &&& e.pull_request_number matches Some(n) ==> ("PR #"@ + signed_decimal(
                n as int,
            )).is_prefix_of(h[0])
            &&& e.is_merge ==> h[a] == "Merge commit"@
            &&& h[a + b] == "Diff +"@ + signed_decimal(e.diff_summary.insertions as int) + "/-"@
                + signed_decimal(e.diff_summary.deletions as int) + " across "@ + decimal(
                e.diff_summary.files_changed as nat,
            ) + " file"@ + plural(e.diff_summary.files_changed as nat)
            &&& forall|k: int|
                0 <= k < e.top_files@.len() ==> #[trigger] h[a + b + 1 + k] == e.top_files@[k].path@
                    + ": +"@ + signed_decimal(e.top_files@[k].insertions as int) + "/-"@
                    + signed_decimal(e.top_files@[k].deletions as int)
            &&& e.directory_churn@.len() > 0 ==> (e.directory_churn@[0].path@
                + " hotspot: +"@).is_prefix_of(h.last())
        }),
        plural(1) == ""@,
        forall|n: nat| n != 1 ==> #[trigger] plural(n) == "s"@,
{
    let r = request_lines(e.pull_request_number, text_of(e.pull_request_url));
    let h = highlights_of(e);
    if let Some(n) = e.pull_request_number {
        let head = "PR #"@ + signed_decimal(n as int);
        assert(h[0] == r[0]);
        if e.pull_request_url is Some {
            let u = text_of(e.pull_request_url)->0;
            assert(r[0] == head + " · "@ + u);
        }
        assert(r[0].subrange(0, head.len() as int) =~= head);
    }
    if e.directory_churn@.len() > 0 {
        let d = e.directory_churn@[0];
        assert(h.last() == directory_lines(e.directory_churn@)[0]);
        lemma_hotspot(d);
    }
}

proof fn lemma_hotspot(d: RepositoryTimelineDirectoryChurn)
    ensures
        (d.path@ + " hotspot: +"@).is_prefix_of(directory_lines(seq![d])[0]),
{
    let head = d.path@ + " hotspot: +"@;
    let a = head + signed_decimal(d.insertions as int);
    let b = a + "/-"@ + signed_decimal(d.deletions as int);
    let c = b + " ("@ + decimal(d.files_changed as nat) + " file"@;
    let all = c + plural(d.files_changed as nat) + ")"@;
    assert(directory_lines(seq![d])[0] == all);
    assert(a.subrange(0, head.len() as int) =~= head);
    assert(b.subrange(0, a.len() as int) =~= a);
    assert(c.subrange(0, b.len() as int) =~= b);
    assert(all.subrange(0, c.len() as int) =~= c);
    assert(all.subrange(0, head.len() as int) =~= head) by {
        assert forall|i: int| 0 <= i < head.len() implies all[i] == head[i] by {
            assert(all.subrange(0, c.len() as int)[i] == all[i]);
            assert(c.subrange(0, b.len() as int)[i] == c[i]);
            assert(b.subrange(0, a.len() as int)[i] == b[i]);
            assert(a.subrange(0, head.len() as int)[i] == a[i]);
        }
    }
}

} // verus!
