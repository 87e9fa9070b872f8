//! Reading the output of `git log`.

use vstd::prelude::*;
use vstd::slice::slice_subrange;
use crate::decimal::{decimal, parse_signed, signed_of};
use crate::git_remote::wide;
use crate::git_timeline::{
    RepositoryTimelineDirectoryChurn, RepositoryTimelineFileChange, RepositoryTimelineTopFile,
};
use crate::order::{law_order_by, order_by, rank_by};
use crate::pieces::{contains_string, find_last, last_position, push_text, split, split_on, texts};
use crate::ranking::positions;
use crate::text::{chars_of, same_text, string_of, trim_str, trimmed};

verus! {

// ---------------------------------------------------------------------------
// Changes of files
// ---------------------------------------------------------------------------

/// How a commit changed a file: the path, the insertions and the deletions.
pub struct ChangeModel {
    pub path: Seq<char>,
    pub insertions: Option<i64>,
    pub deletions: Option<i64>,
}

/// The number that a statistic gives; none for a hyphen.
pub open spec fn stat_value(value: Seq<char>) -> Option<int> {
    if value == "-"@ {
        None
    } else {
        signed_of(trimmed(value))
    }
}

/// The number that a statistic gives; none for a hyphen.
pub fn parse_stat_value(value: &str) -> (r: Option<i64>)
    ensures
        wide(r) == stat_value(value@),
{
    if same_text(value, "-") {
        None
    } else {
        parse_signed(trim_str(value).as_str())
    }
}

/// An optional mathematical integer as one of 64 bits.
pub open spec fn narrow(n: Option<int>) -> Option<i64> {
    match n {
        Some(v) => Some(v as i64),
        None => None,
    }
}

/// The change that a line of statistics stands for.
pub open spec fn change_of(line: Seq<char>) -> Option<ChangeModel> {
    let parts = split_on(trimmed(line), '\t');
    if trimmed(line).len() == 0 || parts.len() < 3 {
        None
    } else {
        Some(
            ChangeModel {
                path: parts[2],
                insertions: narrow(stat_value(parts[0])),
                deletions: narrow(stat_value(parts[1])),
            },
        )
    }
}

/// The changes that lines of statistics stand for.
pub open spec fn changes_in(lines: Seq<Seq<char>>) -> Seq<ChangeModel>
    decreases lines.len(),
{
    if lines.len() == 0 {
        Seq::empty()
    } else {
        let found = changes_in(lines.drop_last());
        match change_of(lines.last()) {
            Some(change) => found.push(change),
            None => found,
        }
    }
}

/// The value, or 0 where there is none.
pub open spec fn or_zero(n: Option<i64>) -> i64 {
    match n {
        Some(v) => v,
        None => 0,
    }
}

fn value_or_zero(n: Option<i64>) -> (r: i64)
    ensures
        r == or_zero(n),
{
    match n {
        Some(v) => v,
        None => 0,
    }
}

/// The difference of two numbers, where both are given.
pub open spec fn net_of(insertions: Option<i64>, deletions: Option<i64>) -> Option<i64> {
    match (insertions, deletions) {
        (Some(i), Some(d)) => Some(i.wrapping_sub(d)),
        _ => None,
    }
}

/// The model of a listed change.
pub open spec fn change_model(c: RepositoryTimelineFileChange) -> ChangeModel {
    ChangeModel { path: c.path@, insertions: c.insertions, deletions: c.deletions }
}

/// The models of listed changes.
pub open spec fn change_models(s: Seq<RepositoryTimelineFileChange>) -> Seq<ChangeModel> {
    Seq::new(s.len(), |i: int| change_model(s[i]))
}

/// The difference is the one of the other two numbers.
pub open spec fn nets_agree(s: Seq<RepositoryTimelineFileChange>) -> bool {
    forall|i: int|
        0 <= i < s.len() ==> (#[trigger] s[i]).net == net_of(s[i].insertions, s[i].deletions)
}

/// The insertions of the first `n` changes together, around the ends of 64 bits.
pub open spec fn inserted(changes: Seq<ChangeModel>, n: int) -> i64
    decreases n,
{
    if n <= 0 {
        0
    } else {
        inserted(changes, n - 1).wrapping_add(or_zero(changes[n - 1].insertions))
    }
}

/// The deletions of the first `n` changes together, around the ends of 64 bits.
pub open spec fn deleted(changes: Seq<ChangeModel>, n: int) -> i64
    decreases n,
{
    if n <= 0 {
        0
    } else {
        deleted(changes, n - 1).wrapping_add(or_zero(changes[n - 1].deletions))
    }
}

fn parse_change(line: &str) -> (r: Option<RepositoryTimelineFileChange>)
    ensures
        match r {
            Some(c) => {
                &&& change_of(line@) == Some(change_model(c))
                &&& c.net == net_of(c.insertions, c.deletions)
            },
            None => change_of(line@) is None,
        },
{
    let t = trim_str(line);
    if t.as_str().is_empty() {
        return None;
    }
    let v = chars_of(t.as_str());
    let parts = split(v.as_slice(), '\t');
    assert(texts(parts@).len() == parts@.len());
    if parts.len() < 3 {
        return None;
    }
    assert(texts(parts@)[0] == parts@[0]@);
    assert(texts(parts@)[1] == parts@[1]@);
    assert(texts(parts@)[2] == parts@[2]@);
    let insertions = parse_stat_value(parts[0].as_str());
    let deletions = parse_stat_value(parts[1].as_str());
    let net = match (insertions, deletions) {
        (Some(i), Some(d)) => Some(i.wrapping_sub(d)),
        _ => None,
    };
    Some(RepositoryTimelineFileChange { path: parts[2].clone(), insertions, deletions, net })
}

/// The changes that the first `count` lines of statistics stand for.
pub fn parse_changes(lines: &Vec<String>, from: usize, count: usize) -> (r: Vec<
    RepositoryTimelineFileChange,
>)
    requires
        from <= count <= lines@.len(),
    ensures
        change_models(r@) == changes_in(texts(lines@).subrange(from as int, count as int)),
        nets_agree(r@),
{
    let ghost all = texts(lines@);
    let mut out: Vec<RepositoryTimelineFileChange> = Vec::new();
    let mut i: usize = from;
    assert(change_models(out@) =~= changes_in(all.subrange(from as int, from as int)));
    while i < count
        invariant
            from <= i <= count <= lines@.len(),
            all == texts(lines@),
            change_models(out@) == changes_in(all.subrange(from as int, i as int)),
            nets_agree(out@),
        decreases count - i,
    {
        proof {
            let next = all.subrange(from as int, i + 1);
            assert(next.drop_last() =~= all.subrange(from as int, i as int));
            assert(next.last() == lines@[i as int]@);
        }
        if let Some(change) = parse_change(lines[i].as_str()) {
            let ghost before = out@;
            out.push(change);
            assert(change_models(out@) =~= change_models(before).push(change_model(change)));
        }
        i += 1;
    }
    out
}

/// The insertions and the deletions of the changes together.
pub fn sum_changes(changes: &Vec<RepositoryTimelineFileChange>) -> (r: (i64, i64))
    ensures
        r.0 == inserted(change_models(changes@), changes@.len() as int),
        r.1 == deleted(change_models(changes@), changes@.len() as int),
{
    let ghost all = change_models(changes@);
    let mut insertions: i64 = 0;
    let mut deletions: i64 = 0;
    let mut i: usize = 0;
    while i < changes.len()
        invariant
            i <= changes@.len(),
            all == change_models(changes@),
            insertions == inserted(all, i as int),
            deletions == deleted(all, i as int),
        decreases changes.len() - i,
    {
        assert(all[i as int] == change_model(changes@[i as int]));
        insertions = insertions.wrapping_add(value_or_zero(changes[i].insertions));
        deletions = deletions.wrapping_add(value_or_zero(changes[i].deletions));
        i += 1;
    }
    (insertions, deletions)
}

// ---------------------------------------------------------------------------
// The files and directories that changed most
// ---------------------------------------------------------------------------

/// The size of a number, around the ends of 64 bits.
pub open spec fn size_of_number(n: i64) -> i64 {
    if n < 0 {
        0i64.wrapping_sub(n)
    } else {
        n
    }
}

/// How much was changed, around the ends of 64 bits.
pub open spec fn magnitude(insertions: i64, deletions: i64) -> i64 {
    size_of_number(insertions).wrapping_add(size_of_number(deletions))
}

fn measure(insertions: i64, deletions: i64) -> (r: i64)
    ensures
        r == magnitude(insertions, deletions),
{
    let a: i64 = if insertions < 0 {
        0i64.wrapping_sub(insertions)
    } else {
        insertions
    };
    let b: i64 = if deletions < 0 {
        0i64.wrapping_sub(deletions)
    } else {
        deletions
    };
    a.wrapping_add(b)
}

/// The magnitudes of changes.
pub open spec fn magnitudes(changes: Seq<ChangeModel>) -> Seq<i64> {
    Seq::new(
        changes.len(),
        |i: int| magnitude(or_zero(changes[i].insertions), or_zero(changes[i].deletions)),
    )
}

/// The paths of changes.
pub open spec fn change_paths(changes: Seq<ChangeModel>) -> Seq<Seq<char>> {
    Seq::new(changes.len(), |i: int| changes[i].path)
}

/// The changes, ranked by how much was changed and then by path.
pub open spec fn ranked_changes(changes: Seq<ChangeModel>) -> Seq<int> {
    order_by(magnitudes(changes), change_paths(changes), changes.len() as int)
}

/// The file that a change stands for.
pub open spec fn is_top_file(f: RepositoryTimelineTopFile, change: ChangeModel) -> bool {
    &&& f.path@ == change.path
    &&& f.insertions == or_zero(change.insertions)
    &&& f.deletions == or_zero(change.deletions)
    &&& f.net == or_zero(change.insertions).wrapping_sub(or_zero(change.deletions))
}

/// The smaller of two numbers.
pub open spec fn at_most(n: nat, limit: nat) -> nat {
    if n <= limit {
        n
    } else {
        limit
    }
}

/// The files are those that the changes changed most, at most `limit`.
pub open spec fn are_top_files(
    files: Seq<RepositoryTimelineTopFile>,
    changes: Seq<ChangeModel>,
    limit: nat,
) -> bool {
    &&& files.len() == at_most(changes.len(), limit)
    &&& forall|k: int|
        0 <= k < files.len() ==> is_top_file(
            #[trigger] files[k],
            changes[ranked_changes(changes)[k]],
        )
}

/// The files that the changes changed most, at most `limit`.
pub fn to_top_files(changes: &Vec<RepositoryTimelineFileChange>, limit: usize) -> (r: Vec<
    RepositoryTimelineTopFile,
>)
    ensures
        are_top_files(r@, change_models(changes@), limit as nat),
{
    let ghost all = change_models(changes@);
    let mut keys: Vec<i64> = Vec::new();
    let mut names: Vec<String> = Vec::new();
    let mut i: usize = 0;
    assert(keys@ =~= magnitudes(all).take(0));
    assert(texts(names@) =~= change_paths(all).take(0));
    while i < changes.len()
        invariant
            i <= changes@.len(),
            all == change_models(changes@),
            keys@ == magnitudes(all).take(i as int),
            texts(names@) == change_paths(all).take(i as int),
        decreases changes.len() - i,
    {
        let key = measure(value_or_zero(changes[i].insertions), value_or_zero(changes[i].deletions));
        proof {
            assert(all[i as int] == change_model(changes@[i as int]));
            assert(magnitudes(all).take(i + 1) =~= magnitudes(all).take(i as int).push(key));
            assert(change_paths(all).take(i + 1) =~= change_paths(all).take(i as int).push(
                changes@[i as int].path@,
            ));
        }
        keys.push(key);
        push_text(&mut names, changes[i].path.clone());
        i += 1;
    }
    proof {
        assert(magnitudes(all).take(i as int) =~= magnitudes(all));
        assert(change_paths(all).take(i as int) =~= change_paths(all));
        assert(texts(names@).len() == names@.len());
    }
    let order = rank_by(&keys, &names);
    let ghost ranked = ranked_changes(all);
    let count: usize = if order.len() <= limit {
        order.len()
    } else {
        limit
    };
    let mut out: Vec<RepositoryTimelineTopFile> = Vec::new();
    let mut k: usize = 0;
    while k < count
        invariant
            k <= count <= order@.len(),
            order@.len() == changes@.len(),
            all == change_models(changes@),
            ranked == positions(order@),
            forall|j: int| 0 <= j < order@.len() ==> #[trigger] order@[j] < changes@.len(),
            out@.len() == k,
            forall|j: int| 0 <= j < k ==> is_top_file(#[trigger] out@[j], all[ranked[j]]),
        decreases count - k,
    {
        let at: usize = order[k];
        assert(ranked[k as int] == at);
        assert(all[at as int] == change_model(changes@[at as int]));
        let insertions = value_or_zero(changes[at].insertions);
        let deletions = value_or_zero(changes[at].deletions);
        out.push(
            RepositoryTimelineTopFile {
                path: changes[at].path.clone(),
                insertions,
                deletions,
                net: insertions.wrapping_sub(deletions),
            },
        );
        k += 1;
    }
    out
}

/// The directory of a path.
pub open spec fn directory_of(path: Seq<char>) -> Seq<char> {
    let p = last_position(path, '/');
    if p < 0 {
        "."@
    } else {
        path.take(p)
    }
}

fn directory(path: &str) -> (r: String)
    ensures
        r@ == directory_of(path@),
{
    let v = chars_of(path);
    let p = find_last(v.as_slice(), '/');
    if p == 0 {
        ".".to_owned()
    } else {
        let head = slice_subrange(v.as_slice(), 0, p - 1);
        assert(head@ =~= path@.take(p - 1));
        string_of(head)
    }
}

/// The texts without repetition, in the order in which they first occur.
pub open spec fn distinct_texts(s: Seq<Seq<char>>) -> Seq<Seq<char>>
    decreases s.len(),
{
    if s.len() == 0 {
        s
    } else {
        let found = distinct_texts(s.drop_last());
        if found.contains(s.last()) {
            found
        } else {
            found.push(s.last())
        }
    }
}

/// The texts without repetition.
pub fn drop_repeated(list: &Vec<String>) -> (r: Vec<String>)
    ensures
        texts(r@) == distinct_texts(texts(list@)),
{
    let ghost all = texts(list@);
    let mut out: Vec<String> = Vec::new();
    let mut i: usize = 0;
    assert(texts(out@) =~= distinct_texts(all.take(0)));
    while i < list.len()
        invariant
            i <= list@.len(),
            all == texts(list@),
            texts(out@) == distinct_texts(all.take(i as int)),
        decreases list.len() - i,
    {
        proof {
            assert(all.take(i + 1).drop_last() =~= all.take(i as int));
            assert(all.take(i + 1).last() == list@[i as int]@);
        }
        if !contains_string(&out, list[i].as_str()) {
            push_text(&mut out, list[i].clone());
        }
        i += 1;
    }
    assert(all.take(i as int) =~= all);
    out
}

/// The directories of changes, each once.
pub open spec fn directories(changes: Seq<ChangeModel>) -> Seq<Seq<char>> {
    distinct_texts(Seq::new(changes.len(), |i: int| directory_of(changes[i].path)))
}

/// The changes in a directory.
pub open spec fn changes_below(changes: Seq<ChangeModel>, dir: Seq<char>) -> Seq<ChangeModel>
    decreases changes.len(),
{
    if changes.len() == 0 {
        changes
    } else if directory_of(changes.last().path) == dir {
        changes_below(changes.drop_last(), dir).push(changes.last())
    } else {
        changes_below(changes.drop_last(), dir)
    }
}

/// How the changes changed a directory.
pub open spec fn is_churn(
    c: RepositoryTimelineDirectoryChurn,
    changes: Seq<ChangeModel>,
    dir: Seq<char>,
) -> bool {
    let own = changes_below(changes, dir);
    &&& c.path@ == dir
    &&& c.insertions == inserted(own, own.len() as int)
    &&& c.deletions == deleted(own, own.len() as int)
    &&& c.net == c.insertions.wrapping_sub(c.deletions)
    &&& c.files_changed == distinct_texts(change_paths(own)).len()
}

/// How much each directory was changed.
pub open spec fn churn_magnitudes(changes: Seq<ChangeModel>) -> Seq<i64> {
    Seq::new(
        directories(changes).len(),
        |i: int|
            {
                let own = changes_below(changes, directories(changes)[i]);
                magnitude(inserted(own, own.len() as int), deleted(own, own.len() as int))
            },
    )
}

/// The directories, ranked by how much was changed and then by path.
pub open spec fn ranked_directories(changes: Seq<ChangeModel>) -> Seq<int> {
    order_by(
        churn_magnitudes(changes),
        directories(changes),
        directories(changes).len() as int,
    )
}

/// The churn is that of the directories that changed most, at most `limit`.
pub open spec fn are_churns(
    churns: Seq<RepositoryTimelineDirectoryChurn>,
    changes: Seq<ChangeModel>,
    limit: nat,
) -> bool {
    &&& churns.len() == at_most(directories(changes).len(), limit)
    &&& forall|k: int|
        0 <= k < churns.len() ==> is_churn(
            #[trigger] churns[k],
            changes,
            directories(changes)[ranked_directories(changes)[k]],
        )
}

/// How the changes changed a directory.
fn measure_directory(changes: &Vec<RepositoryTimelineFileChange>, dir: &str) -> (r:
    RepositoryTimelineDirectoryChurn)
    ensures
        is_churn(r, change_models(changes@), dir@),
{
    let ghost all = change_models(changes@);
    let mut insertions: i64 = 0;
    let mut deletions: i64 = 0;
    let mut paths: Vec<String> = Vec::new();
    let mut i: usize = 0;
    let ghost mut own = changes_below(all.take(0), dir@);
    assert(texts(paths@) =~= change_paths(own));
    while i < changes.len()
        invariant
            i <= changes@.len(),
            all == change_models(changes@),
            own == changes_below(all.take(i as int), dir@),
            insertions == inserted(own, own.len() as int),
            deletions == deleted(own, own.len() as int),
            texts(paths@) == change_paths(own),
        decreases changes.len() - i,
    {
        let ghost change = change_model(changes@[i as int]);
        proof {
            assert(all.take(i + 1).drop_last() =~= all.take(i as int));
            assert(all.take(i + 1).last() == change);
        }
        if same_text(directory(changes[i].path.as_str()).as_str(), dir) {
            proof {
                let next = own.push(change);
                lemma_sums_of_prefix(own, change, own.len() as int);
                assert(change_paths(next) =~= change_paths(own).push(change.path));
                own = next;
            }
            insertions = insertions.wrapping_add(value_or_zero(changes[i].insertions));
            deletions = deletions.wrapping_add(value_or_zero(changes[i].deletions));
            push_text(&mut paths, changes[i].path.clone());
        }
        i += 1;
    }
    assert(all.take(i as int) =~= all);
    let files = drop_repeated(&paths);
    assert(texts(files@).len() == files@.len());
    RepositoryTimelineDirectoryChurn {
        path: dir.to_owned(),
        insertions,
        deletions,
        net: insertions.wrapping_sub(deletions),
        files_changed: files.len(),
    }
}

proof fn lemma_sums_of_prefix(own: Seq<ChangeModel>, change: ChangeModel, n: int)
    requires
        0 <= n <= own.len(),
    ensures
        inserted(own.push(change), n) == inserted(own, n),
        deleted(own.push(change), n) == deleted(own, n),
    decreases n,
{
    if n > 0 {
        lemma_sums_of_prefix(own, change, n - 1);
        assert(own.push(change)[n - 1] == own[n - 1]);
    }
}

/// The directories that the changes changed most, at most `limit`.
pub fn aggregate_directory_churn(changes: &Vec<RepositoryTimelineFileChange>, limit: usize) -> (r:
    Vec<RepositoryTimelineDirectoryChurn>)
    ensures
        are_churns(r@, change_models(changes@), limit as nat),
{
    let ghost all = change_models(changes@);
    let ghost owners = Seq::new(all.len(), |i: int| directory_of(all[i].path));
    let mut dirs: Vec<String> = Vec::new();
    let mut i: usize = 0;
    assert(texts(dirs@) =~= owners.take(0));
    while i < changes.len()
        invariant
            i <= changes@.len(),
            all == change_models(changes@),
            owners == Seq::new(all.len(), |i: int| directory_of(all[i].path)),
            texts(dirs@) == owners.take(i as int),
        decreases changes.len() - i,
    {
        assert(all[i as int] == change_model(changes@[i as int]));
        assert(owners.take(i + 1) =~= owners.take(i as int).push(
            directory_of(changes@[i as int].path@),
        ));
        push_text(&mut dirs, directory(changes[i].path.as_str()));
        i += 1;
    }
    assert(owners.take(i as int) =~= owners);
    let names = drop_repeated(&dirs);
    let ghost known = directories(all);
    assert(texts(names@) == known);
    assert(names@.len() == known.len());
    let mut churns: Vec<RepositoryTimelineDirectoryChurn> = Vec::new();
    let mut keys: Vec<i64> = Vec::new();
    let mut j: usize = 0;
    assert(keys@ =~= churn_magnitudes(all).take(0));
    while j < names.len()
        invariant
            j <= names@.len(),
            all == change_models(changes@),
            known == directories(all),
            texts(names@) == known,
            churns@.len() == j,
            keys@ == churn_magnitudes(all).take(j as int),
            forall|k: int| 0 <= k < j ==> is_churn(#[trigger] churns@[k], all, known[k]),
        decreases names.len() - j,
    {
        assert(known[j as int] == names@[j as int]@);
        let churn = measure_directory(changes, names[j].as_str());
        let key = measure(churn.insertions, churn.deletions);
        assert(churn_magnitudes(all).take(j + 1) =~= churn_magnitudes(all).take(j as int).push(key));
        keys.push(key);
        churns.push(churn);
        j += 1;
    }
    assert(churn_magnitudes(all).take(j as int) =~= churn_magnitudes(all));
    let order = rank_by(&keys, &names);
    let ghost ranked = ranked_directories(all);
    let count: usize = if order.len() <= limit {
        order.len()
    } else {
        limit
    };
    let mut out: Vec<RepositoryTimelineDirectoryChurn> = Vec::new();
    let mut k: usize = 0;
    while k < count
        invariant
            k <= count <= order@.len(),
            order@.len() == churns@.len(),
            ranked == positions(order@),
            forall|m: int| 0 <= m < order@.len() ==> #[trigger] order@[m] < churns@.len(),
            forall|m: int| 0 <= m < churns@.len() ==> is_churn(#[trigger] churns@[m], all, known[m]),
            out@.len() == k,
            forall|m: int| 0 <= m < k ==> is_churn(#[trigger] out@[m], all, known[ranked[m]]),
        decreases count - k,
    {
        let at: usize = order[k];
        assert(ranked[k as int] == at);
        let found = &churns[at];
        assert(is_churn(*found, all, known[at as int]));
        out.push(
            RepositoryTimelineDirectoryChurn {
                path: found.path.clone(),
                insertions: found.insertions,
                deletions: found.deletions,
                net: found.net,
                files_changed: found.files_changed,
            },
        );
        k += 1;
    }
    out
}

/// The files that a commit changed most are ranked: of two, the first was changed more, or
/// as much and its path does not come later.
pub proof fn law_top_files_ranked(changes: Seq<ChangeModel>, j: int, k: int)
    requires
        0 <= j < k < changes.len(),
    ensures
        ranked_changes(changes).len() == changes.len(),
        0 <= ranked_changes(changes)[j] < changes.len(),
        0 <= ranked_changes(changes)[k] < changes.len(),
        ranked_changes(changes)[j] != ranked_changes(changes)[k],
        magnitudes(changes)[ranked_changes(changes)[j]]
            >= magnitudes(changes)[ranked_changes(changes)[k]],
{
    let keys = magnitudes(changes);
    let names = change_paths(changes);
    law_order_by(keys, names, changes.len() as int);
    let order = ranked_changes(changes);
    assert(crate::order::well_placed(keys, names, order[j], order[k]));
    crate::order::lemma_text_order(names[order[j]], names[order[k]]);
}

// ---------------------------------------------------------------------------
// What the statistics tell
// ---------------------------------------------------------------------------

/// A statistic is the number that is written there, and none where a hyphen stands.
pub proof fn law_stat_value(n: nat)
    requires
        n <= i64::MAX,
    ensures
        stat_value(decimal(n)) == Some(n as int),
        stat_value("-"@) is None,
{
    reveal_strlit("-");
    crate::decimal::lemma_decimal_round_trip(n);
    let d = decimal(n);
    assert('0' <= d[0] <= '9');
    assert('0' <= d[d.len() - 1] <= '9');
    crate::text::law_trimmed_stays(d);
    assert("-"@[0] == '-');
    crate::decimal::law_signed_read_back(n as int);
}

/// A line of statistics gives first the insertions, then the deletions, then the path.
pub proof fn law_stat_line(added: Seq<char>, removed: Seq<char>, path: Seq<char>)
    requires
        !added.contains('\t'),
        !removed.contains('\t'),
        !path.contains('\t'),
        added.len() > 0,
        path.len() > 0,
        !crate::text::is_white_space(added[0]),
        !crate::text::is_white_space(path.last()),
    ensures
        change_of(added + seq!['\t'] + removed + seq!['\t'] + path) == Some(
            ChangeModel {
                path,
                insertions: narrow(stat_value(added)),
                deletions: narrow(stat_value(removed)),
            },
        ),
{
    let line = added + seq!['\t'] + removed + seq!['\t'] + path;
    let rest = removed + seq!['\t'] + path;
    assert(line =~= added + seq!['\t'] + rest);
    assert(line[0] == added[0]);
    assert(line.last() == path.last());
    crate::text::law_trimmed_stays(line);
    crate::pieces::lemma_split_first(added, '\t', rest);
    crate::pieces::lemma_split_first(removed, '\t', path);
    crate::pieces::law_joined_split(seq![path], '\t');
    assert(crate::pieces::joined(seq![path], seq!['\t']) == path);
    let parts = split_on(line, '\t');
    assert(parts =~= seq![added, removed, path]);
}

/// The lines of statistics give their changes in order; a line that is none gives nothing.
pub proof fn law_changes_in(front: Seq<Seq<char>>, line: Seq<char>, back: Seq<Seq<char>>)
    ensures
        changes_in(front + seq![line] + back) == changes_in(front) + (match change_of(line) {
            Some(c) => seq![c],
            None => Seq::empty(),
        }) + changes_in(back),
        changes_in(Seq::empty()).len() == 0,
    decreases back.len(),
{
    let all = front + seq![line] + back;
    let found = match change_of(line) {
        Some(c) => seq![c],
        None => Seq::empty(),
    };
    if back.len() == 0 {
        assert(all.drop_last() =~= front);
        assert(all.last() == line);
        assert(changes_in(all) =~= changes_in(front) + found + changes_in(back));
    } else {
        law_changes_in(front, line, back.drop_last());
        assert(all.drop_last() =~= front + seq![line] + back.drop_last());
        assert(all.last() == back.last());
        assert(changes_in(all) =~= changes_in(front) + found + changes_in(back));
    }
}

/// What is left of a change are its insertions without its deletions.
pub proof fn law_net(i: i64, d: i64)
    ensures
        i64::MIN <= i - d <= i64::MAX ==> net_of(Some(i), Some(d)) == Some((i - d) as i64),
        net_of(None, Some(d)) is None,
        net_of(Some(i), None) is None,
{
}

proof fn lemma_sums_stay(changes: Seq<ChangeModel>, c: ChangeModel, n: int)
    requires
        n <= changes.len(),
    ensures
        inserted(changes.push(c), n) == inserted(changes, n),
        deleted(changes.push(c), n) == deleted(changes, n),
    decreases n,
{
    if n > 0 {
        lemma_sums_stay(changes, c, n - 1);
    }
}

/// A change more adds its insertions to the insertions and its deletions to the deletions, and
/// what it does not tell counts for nothing.
pub proof fn law_sums(changes: Seq<ChangeModel>, c: ChangeModel)
    ensures
        ({
            let n = changes.len() as int;
            let plus = match c.insertions {
                Some(v) => v as int,
                None => 0,
            };
            let minus = match c.deletions {
                Some(v) => v as int,
                None => 0,
            };
            &&& i64::MIN <= inserted(changes, n) + plus <= i64::MAX ==> inserted(
                changes.push(c),
                n + 1,
            ) == inserted(changes, n) + plus
            &&& i64::MIN <= deleted(changes, n) + minus <= i64::MAX ==> deleted(
                changes.push(c),
                n + 1,
            ) == deleted(changes, n) + minus
            &&& inserted(changes, 0) == 0 && deleted(changes, 0) == 0
        }),
{
    lemma_sums_stay(changes, c, changes.len() as int);
}

/// How much was changed are the insertions and the deletions together.
pub proof fn law_magnitude(i: i64, d: i64)
    requires
        0 <= i,
        0 <= d,
        i + d <= i64::MAX,
    ensures
        magnitude(i, d) == i + d,
{
}

/// The top files are the most changed ones: none changed less than one behind it or than one
/// that is not listed. They have the numbers of their changes, and the net of these.
pub proof fn law_top_files(
    files: Seq<RepositoryTimelineTopFile>,
    changes: Seq<ChangeModel>,
    limit: nat,
    j: int,
    i: int,
)
    requires
        are_top_files(files, changes, limit),
        0 <= j < files.len(),
        0 <= i < changes.len(),
        forall|k: int|
            0 <= k < changes.len() ==> 0 <= or_zero((#[trigger] changes[k]).insertions)
                <= 0x3fff_ffff_ffff_ffff && 0 <= or_zero(changes[k].deletions)
                <= 0x3fff_ffff_ffff_ffff,
        forall|k: int|
            0 <= k < files.len() ==> (#[trigger] files[k]).path@ != changes[i].path,
    ensures
        files.len() == limit,
        files[j].insertions + files[j].deletions >= or_zero(changes[i].insertions) + or_zero(
            changes[i].deletions,
        ),
        files[j].net == files[j].insertions - files[j].deletions,
        exists|k: int|
            0 <= k < changes.len() && files[j].path@ == (#[trigger] changes[k]).path
                && files[j].insertions == or_zero(changes[k].insertions) && files[j].deletions
                == or_zero(changes[k].deletions),
{
    let n = changes.len() as int;
    let keys = magnitudes(changes);
    let names = change_paths(changes);
    let order = ranked_changes(changes);
    crate::order::law_order_by(keys, names, n);
    lemma_order_holds_all(keys, names, n, i);
    let p = choose|p: int| 0 <= p < n && order[p] == i;
    if p < files.len() {
        assert(is_top_file(files[p], changes[order[p]]));
    }
    assert(is_top_file(files[j], changes[order[j]]));
    assert(0 <= order[j] < n);
    crate::order::law_ranked_down(keys, names, n, j, p);
    assert(keys[order[j]] == magnitude(
        or_zero(changes[order[j]].insertions),
        or_zero(changes[order[j]].deletions),
    ));
}

proof fn lemma_order_holds_all(keys: Seq<i64>, names: Seq<Seq<char>>, n: int, x: int)
    requires
        0 <= x < n,
    ensures
        exists|p: int| 0 <= p < n && #[trigger] crate::order::order_by(keys, names, n)[p] == x,
    decreases n,
{
    crate::order::law_order_by(keys, names, n);
    crate::order::law_order_by(keys, names, n - 1);
    let before = crate::order::order_by(keys, names, n - 1);
    if x < n - 1 {
        lemma_order_holds_all(keys, names, n - 1, x);
    }
    lemma_insert_holds(before, keys, names, n - 1, x);
}

proof fn lemma_insert_holds(
    order: Seq<int>,
    keys: Seq<i64>,
    names: Seq<Seq<char>>,
    i: int,
    x: int,
)
    requires
        x == i || exists|p: int| 0 <= p < order.len() && #[trigger] order[p] == x,
    ensures
        crate::order::insert_ahead(order, keys, names, i).len() == order.len() + 1,
        exists|p: int|
            0 <= p < order.len() + 1 && #[trigger] crate::order::insert_ahead(
                order,
                keys,
                names,
                i,
            )[p] == x,
    decreases order.len(),
{
    let all = crate::order::insert_ahead(order, keys, names, i);
    if order.len() == 0 || !crate::order::ahead(keys, names, i, order.last()) {
        if x == i {
            assert(all[order.len() as int] == x);
        } else {
            let p = choose|p: int| 0 <= p < order.len() && #[trigger] order[p] == x;
            assert(all[p] == x);
        }
    } else {
        let front = order.drop_last();
        if x != i && x == order.last() {
            lemma_insert_holds(front, keys, names, i, i);
            assert(all[order.len() as int] == x);
        } else {
            if x != i {
                let p = choose|p: int| 0 <= p < order.len() && #[trigger] order[p] == x;
                assert(front[p] == x);
            }
            lemma_insert_holds(front, keys, names, i, x);
            let inner = crate::order::insert_ahead(front, keys, names, i);
            let p = choose|p: int| 0 <= p < front.len() + 1 && #[trigger] inner[p] == x;
            assert(all[p] == x);
        }
    }
}

/// The directory of a file is what stands in front of the last slash of its path: behind it
/// there is a name without slashes. A path without slashes lies in the directory `.`.
pub proof fn law_directory(path: Seq<char>)
    ensures
        path.contains('/') ==> exists|name: Seq<char>|
            !name.contains('/') && path == #[trigger] (directory_of(path) + seq!['/'] + name),
        !path.contains('/') ==> directory_of(path) == "."@,
{
    lemma_last_slash(path);
    let p = last_position(path, '/');
    if path.contains('/') {
        let name = path.skip(p + 1);
        assert(path =~= directory_of(path) + seq!['/'] + name);
        assert forall|i: int| 0 <= i < name.len() implies name[i] != '/' by {
            assert(name[i] == path[p + 1 + i]);
        }
        assert(path == (directory_of(path) + seq!['/'] + name));
    }
}

proof fn lemma_last_slash(s: Seq<char>)
    ensures
        -1 <= last_position(s, '/') < s.len(),
        last_position(s, '/') >= 0 ==> s[last_position(s, '/')] == '/',
        forall|i: int| last_position(s, '/') < i < s.len() ==> s[i] != '/',
    decreases s.len(),
{
    if s.len() > 0 && s.last() != '/' {
        lemma_last_slash(s.drop_last());
        assert forall|i: int| last_position(s, '/') < i < s.len() implies s[i] != '/' by {
            if i < s.len() - 1 {
                assert(s.drop_last()[i] == s[i]);
            }
        }
    }
}

/// Without repetition, every text stands there exactly once, and no other.
pub proof fn law_distinct_texts(s: Seq<Seq<char>>)
    ensures
        distinct_texts(s).no_duplicates(),
        forall|x: Seq<char>| #[trigger] distinct_texts(s).contains(x) <==> s.contains(x),
    decreases s.len(),
{
    if s.len() > 0 {
        let front = s.drop_last();
        law_distinct_texts(front);
        let before = distinct_texts(front);
        let all = distinct_texts(s);
        assert forall|x: Seq<char>| #[trigger] all.contains(x) <==> s.contains(x) by {
            if s.contains(x) {
                let i = choose|i: int| 0 <= i < s.len() && s[i] == x;
                if i < front.len() {
                    assert(front[i] == x);
                    assert(before.contains(x));
                    let k = choose|k: int| 0 <= k < before.len() && before[k] == x;
                    assert(all[k] == x);
                } else if before.contains(x) {
                    let k = choose|k: int| 0 <= k < before.len() && before[k] == x;
                    assert(all[k] == x);
                } else {
                    assert(all[before.len() as int] == x);
                }
            }
            if all.contains(x) {
                let k = choose|k: int| 0 <= k < all.len() && all[k] == x;
                if k < before.len() {
                    assert(before[k] == x);
                    assert(before.contains(x));
                    assert(front.contains(x));
                    let i = choose|i: int| 0 <= i < front.len() && front[i] == x;
                    assert(s[i] == x);
                } else {
                    assert(s[s.len() - 1] == x);
                }
            }
        }
    }
}

/// The changes below a directory are those of its files, all of them and in their order.
pub proof fn law_changes_below(changes: Seq<ChangeModel>, dir: Seq<char>)
    ensures
        changes_below(changes, dir) == changes.filter(
            |c: ChangeModel| directory_of(c.path) == dir,
        ),
    decreases changes.len(),
{
    reveal(Seq::filter);
    if changes.len() > 0 {
        law_changes_below(changes.drop_last(), dir);
    } else {
        assert(changes_below(changes, dir) =~= Seq::empty());
        assert(changes.filter(|c: ChangeModel| directory_of(c.path) == dir) =~= Seq::empty());
    }
}

/// The churn of a directory counts the changes of its own files and each file once, and its
/// net are the insertions without the deletions.
pub proof fn law_churn(
    c: RepositoryTimelineDirectoryChurn,
    changes: Seq<ChangeModel>,
    dir: Seq<char>,
)
    requires
        is_churn(c, changes, dir),
    ensures
        c.path@ == dir,
        ({
            let own = changes.filter(|x: ChangeModel| directory_of(x.path) == dir);
            &&& c.insertions == inserted(own, own.len() as int)
            &&& c.deletions == deleted(own, own.len() as int)
            &&& c.files_changed == distinct_texts(change_paths(own)).len()
        }),
        i64::MIN <= c.insertions - c.deletions <= i64::MAX ==> c.net == c.insertions - c.deletions,
{
    law_changes_below(changes, dir);
}

} // verus!
