//! Scans of a directory: which files are read, what is known of each, and in which order
//! they are reported.

use vstd::prelude::*;
use crate::bundle_graph::text_of;
use crate::digest::{lossy_text, read_lossy, sha256_hex, sha256_text};
use crate::globs::{
    add_glob, all_portable, build_set, collected_patterns, glob_parses, is_wanted, new_builder,
    parse_glob, patterns_of, portable, set_patterns, set_portable, wanted,
};
use crate::order::{is_before, lemma_text_order, lemma_text_transitive, text_before};
use crate::paths::{below_any, strip_prefix};
use crate::pieces::{
    contains_string, join, joined, lemma_position_of, position_of, push_text,
    replace_char, replaced_char, split, split_on, texts,
};
use crate::text::{chars_of, same_text, string_of, trim_str, trimmed};
use vstd::slice::slice_subrange;

verus! {

/// A file that was read.
#[derive(Debug)]
pub struct NativeFileEntry {
    pub path: String,
    pub size: u64,
    pub modified: u64,
    pub hash: String,
    pub content: Option<String>,
    pub is_binary: bool,
}

/// A file of which only size and time are known.
#[derive(Debug)]
pub struct NativeMetadataEntry {
    pub path: String,
    pub size: u64,
    pub modified: u64,
}

/// A file that was passed over.
#[derive(Debug)]
pub struct NativeSkippedFile {
    pub path: String,
    pub reason: String,
    pub size: Option<u64>,
    pub message: Option<String>,
}

/// How many bytes tell whether a file is binary.
pub const BINARY_PROBE: usize = 1024;

// ---------------------------------------------------------------------------
// Paths
// ---------------------------------------------------------------------------

/// The text without the `./` that it may begin with, however often.
pub open spec fn without_dots(s: Seq<char>) -> Seq<char>
    decreases s.len(),
{
    if s.len() >= 2 && s[0] == '.' && s[1] == '/' {
        without_dots(s.skip(2))
    } else {
        s
    }
}

/// The text without the slashes that it may begin with.
pub open spec fn without_slashes(s: Seq<char>) -> Seq<char>
    decreases s.len(),
{
    if s.len() >= 1 && s[0] == '/' {
        without_slashes(s.drop_first())
    } else {
        s
    }
}

fn skip_dots(s: &[char], from: usize) -> (r: usize)
    requires
        from <= s@.len(),
    ensures
        from <= r <= s@.len(),
        s@.skip(r as int) == without_dots(s@.skip(from as int)),
{
    let mut i: usize = from;
    let ghost goal = without_dots(s@.skip(from as int));
    while s.len() - i >= 2 && s[i] == '.' && s[i + 1] == '/'
        invariant
            from <= i <= s@.len(),
            without_dots(s@.skip(i as int)) == goal,
        decreases s.len() - i,
    {
        assert(s@.skip(i as int).skip(2) =~= s@.skip(i + 2));
        i += 2;
    }
    i
}

fn skip_slashes(s: &[char], from: usize) -> (r: usize)
    requires
        from <= s@.len(),
    ensures
        from <= r <= s@.len(),
        s@.skip(r as int) == without_slashes(s@.skip(from as int)),
{
    let mut i: usize = from;
    let ghost goal = without_slashes(s@.skip(from as int));
    while i < s.len() && s[i] == '/'
        invariant
            from <= i <= s@.len(),
            without_slashes(s@.skip(i as int)) == goal,
        decreases s.len() - i,
    {
        assert(s@.skip(i as int).drop_first() =~= s@.skip(i + 1));
        i += 1;
    }
    i
}

/// A path with forward slashes, without the dots and slashes that it may begin with.
pub open spec fn plain_path(s: Seq<char>) -> Seq<char> {
    without_slashes(without_dots(replaced_char(s, '\\', '/')))
}

fn make_plain(path: &str) -> (r: String)
    ensures
        r@ == plain_path(path@),
{
    let text = replace_char(path, '\\', '/');
    let chars = chars_of(text.as_str());
    let i: usize = skip_dots(chars.as_slice(), 0);
    assert(chars@.skip(0) =~= chars@);
    let j: usize = skip_slashes(chars.as_slice(), i);
    let rest = slice_subrange(chars.as_slice(), j, chars.len());
    assert(rest@ =~= chars@.skip(j as int));
    string_of(rest)
}

/// The part leads upward, or names nothing.
pub open spec fn is_refused_part(part: Seq<char>) -> bool {
    part == ".."@ || part.len() == 0
}

/// The parts without single dots.
pub open spec fn without_single_dots(parts: Seq<Seq<char>>) -> Seq<Seq<char>> {
    parts.filter(|p: Seq<char>| p != "."@)
}

/// The parts of a path that is asked for; `None` where it is empty, leads upward or names
/// nothing somewhere.
pub open spec fn requested_parts(path: Seq<char>) -> Option<Seq<Seq<char>>> {
    let plain = plain_path(trimmed(path));
    let parts = split_on(plain, '/');
    let kept = without_single_dots(parts);
    if trimmed(path).len() == 0 || plain.len() == 0 {
        None
    } else if exists|i: int| 0 <= i < parts.len() && is_refused_part(#[trigger] parts[i]) {
        None
    } else if kept.len() == 0 {
        None
    } else {
        Some(kept)
    }
}

/// The path that is asked for.
pub open spec fn requested_path(path: Seq<char>) -> Option<Seq<char>> {
    match requested_parts(path) {
        Some(parts) => Some(joined(parts, "/"@)),
        None => None,
    }
}

/// The parts of a text have no separator in them.
proof fn lemma_split_free(s: Seq<char>, c: char)
    ensures
        forall|i: int|
            0 <= i < split_on(s, c).len() ==> !(#[trigger] split_on(s, c)[i]).contains(c),
    decreases s.len(),
{
    let p = position_of(s, c);
    lemma_position_of(s, c);
    if p < 0 || p >= s.len() {
        assert(!s.contains(c));
    } else {
        lemma_split_free(s.skip(p + 1), c);
        let rest = split_on(s.skip(p + 1), c);
        assert forall|i: int| 0 <= i < split_on(s, c).len() implies !(#[trigger] split_on(
            s,
            c,
        )[i]).contains(c) by {
            if i == 0 {
                assert(split_on(s, c)[0] =~= s.take(p));
            } else {
                assert(split_on(s, c)[i] == rest[i - 1]);
            }
        }
    }
}

/// A path that is asked for stays below the directory that is scanned: none of its parts
/// leads upward, is empty, or has a slash in it.
pub proof fn law_requested_path_stays_below(path: Seq<char>)
    ensures
        requested_parts(path) matches Some(parts) ==> parts.len() > 0 && forall|i: int|
            0 <= i < parts.len() ==> {
                &&& (#[trigger] parts[i]) != ".."@
                &&& parts[i] != "."@
                &&& parts[i].len() > 0
                &&& !parts[i].contains('/')
            },
{
    if let Some(parts) = requested_parts(path) {
        let all = split_on(plain_path(trimmed(path)), '/');
        let keep = |p: Seq<char>| p != "."@;
        lemma_split_free(plain_path(trimmed(path)), '/');
        lemma_filter_sound(all, keep);
        assert forall|i: int| 0 <= i < parts.len() implies {
            &&& (#[trigger] parts[i]) != ".."@
            &&& parts[i] != "."@
            &&& parts[i].len() > 0
            &&& !parts[i].contains('/')
        } by {
            assert(all.contains(parts[i]));
            let k = choose|k: int| 0 <= k < all.len() && all[k] == parts[i];
            assert(!is_refused_part(all[k]));
        }
    }
}

/// Every element of a filtered sequence is one of the sequence, and passes.
proof fn lemma_filter_sound(parts: Seq<Seq<char>>, keep: spec_fn(Seq<char>) -> bool)
    ensures
        forall|i: int|
            0 <= i < parts.filter(keep).len() ==> parts.contains(
                #[trigger] parts.filter(keep)[i],
            ) && keep(parts.filter(keep)[i]),
    decreases parts.len(),
{
    reveal(Seq::filter);
    if parts.len() > 0 {
        let rest = parts.drop_last();
        lemma_filter_sound(rest, keep);
        assert forall|i: int| 0 <= i < parts.filter(keep).len() implies parts.contains(
            #[trigger] parts.filter(keep)[i],
        ) && keep(parts.filter(keep)[i]) by {
            if i < rest.filter(keep).len() {
                assert(rest.contains(rest.filter(keep)[i]));
                let k = choose|k: int| 0 <= k < rest.len() && rest[k] == rest.filter(keep)[i];
                assert(parts[k] == rest.filter(keep)[i]);
            } else {
                assert(parts[parts.len() - 1] == parts.filter(keep)[i]);
            }
        }
    }
}

/// The path that is asked for; `None` where it is empty, leads upward or names nothing
/// somewhere.
pub fn sanitize_requested_path(path: &str) -> (r: Option<String>)
    ensures
        text_of(r) == requested_path(path@),
{
    let inner = trim_str(path);
    if inner.as_str().is_empty() {
        return None;
    }
    let plain = make_plain(inner.as_str());
    if plain.as_str().is_empty() {
        return None;
    }
    let chars = chars_of(plain.as_str());
    let parts = split(chars.as_slice(), '/');
    let ghost all = texts(parts@);
    let ghost keep = |p: Seq<char>| p != "."@;
    let mut kept: Vec<String> = Vec::new();
    let mut i: usize = 0;
    proof {
        reveal(Seq::filter);
        assert(all.take(0) =~= Seq::<Seq<char>>::empty());
        assert(texts(kept@) =~= Seq::<Seq<char>>::empty());
    }
    while i < parts.len()
        invariant
            i <= parts@.len(),
            all == texts(parts@),
            all == split_on(plain_path(trimmed(path@)), '/'),
            keep == (|p: Seq<char>| p != "."@),
            forall|k: int| 0 <= k < i ==> !is_refused_part(#[trigger] all[k]),
            texts(kept@) == all.take(i as int).filter(keep),
        decreases parts.len() - i,
    {
        let part = parts[i].as_str();
        assert(all[i as int] == part@);
        if part.is_empty() || same_text(part, "..") {
            assert(is_refused_part(all[i as int]));
            return None;
        }
        proof {
            reveal(Seq::filter);
            assert(all.take(i + 1).drop_last() =~= all.take(i as int));
            assert(all.take(i + 1).last() == part@);
        }
        if !same_text(part, ".") {
            push_text(&mut kept, parts[i].clone());
        }
        i += 1;
    }
    assert(all.take(i as int) =~= all);
    if kept.len() == 0 {
        assert(texts(kept@).len() == 0);
        return None;
    }
    assert(texts(kept@).len() == kept@.len());
    Some(join(kept.as_slice(), "/"))
}

/// The paths that are asked for, each once, in the order in which they are asked for.
pub open spec fn requested_files(paths: Seq<Seq<char>>) -> Seq<Seq<char>>
    decreases paths.len(),
{
    if paths.len() == 0 {
        Seq::empty()
    } else {
        let before = requested_files(paths.drop_last());
        match requested_path(paths.last()) {
            Some(path) => if before.contains(path) {
                before
            } else {
                before.push(path)
            },
            None => before,
        }
    }
}

/// The paths that are asked for, each once, in the order in which they are asked for.
pub fn collect_requested(paths: &Vec<String>) -> (r: Vec<String>)
    ensures
        texts(r@) == requested_files(texts(paths@)),
{
    let ghost all = texts(paths@);
    let mut out: Vec<String> = Vec::new();
    let mut i: usize = 0;
    assert(all.take(0) =~= Seq::<Seq<char>>::empty());
    assert(texts(out@) =~= Seq::<Seq<char>>::empty());
    while i < paths.len()
        invariant
            i <= paths@.len(),
            all == texts(paths@),
            texts(out@) == requested_files(all.take(i as int)),
        decreases paths.len() - i,
    {
        proof {
            assert(all.take(i + 1).drop_last() =~= all.take(i as int));
            assert(all.take(i + 1).last() == paths@[i as int]@);
        }
        if let Some(path) = sanitize_requested_path(paths[i].as_str()) {
            if !contains_string(&out, path.as_str()) {
                push_text(&mut out, path);
            }
        }
        i += 1;
    }
    assert(all.take(i as int) =~= all);
    out
}

/// No path is asked for twice.
pub proof fn law_requested_once(paths: Seq<Seq<char>>)
    ensures
        forall|i: int, j: int|
            0 <= i < j < requested_files(paths).len() ==> requested_files(paths)[i]
                != requested_files(paths)[j],
    decreases paths.len(),
{
    if paths.len() > 0 {
        law_requested_once(paths.drop_last());
        let before = requested_files(paths.drop_last());
        let now = requested_files(paths);
        assert forall|i: int, j: int| 0 <= i < j < now.len() implies now[i] != now[j] by {
            if j == before.len() {
                assert(now[i] == before[i]);
                assert(before.contains(before[i]));
            } else {
                assert(now[i] == before[i] && now[j] == before[j]);
            }
        }
    }
}

/// The path of a file below the directory that is scanned.
pub open spec fn scanned_path(root: Seq<char>, path: Seq<char>) -> Option<Seq<char>> {
    match below_any(root, path) {
        Some(rest) => if plain_path(rest).len() == 0 {
            None
        } else {
            Some(plain_path(rest))
        },
        None => None,
    }
}

/// The path of a file below the directory that is scanned.
pub fn to_relative_posix(root: &str, path: &str) -> (r: Option<String>)
    ensures
        text_of(r) == scanned_path(root@, path@),
{
    match strip_prefix(root, path) {
        Some(rest) => {
            let plain = make_plain(rest.as_str());
            if plain.as_str().is_empty() {
                None
            } else {
                Some(plain)
            }
        },
        None => None,
    }
}

// ---------------------------------------------------------------------------
// Patterns
// ---------------------------------------------------------------------------

/// A pattern with forward slashes and without white space around it.
pub open spec fn plain_pattern(pattern: Seq<char>) -> Seq<char> {
    replaced_char(trimmed(pattern), '\\', '/')
}

/// The patterns that are not blank.
pub open spec fn plain_patterns(patterns: Seq<Seq<char>>) -> Seq<Seq<char>>
    decreases patterns.len(),
{
    if patterns.len() == 0 {
        Seq::empty()
    } else if trimmed(patterns.last()).len() == 0 {
        plain_patterns(patterns.drop_last())
    } else {
        plain_patterns(patterns.drop_last()).push(plain_pattern(patterns.last()))
    }
}

/// A pattern that is not blank is a glob pattern.
pub open spec fn reads_as_glob(pattern: Seq<char>) -> bool {
    trimmed(pattern).len() == 0 || glob_parses(plain_pattern(pattern))
}

/// What is said of a text that is no glob pattern.
pub open spec fn bad_pattern(pattern: Seq<char>, reason: Seq<char>) -> Seq<char> {
    "Invalid glob pattern '"@ + pattern + "': "@ + reason
}

/// What is said where the patterns make no set.
pub open spec fn bad_set(reason: Seq<char>) -> Seq<char> {
    "Failed to build globset: "@ + reason
}

/// The message is what is said of the first of the patterns that is no glob pattern.
pub open spec fn names_bad_pattern(message: Seq<char>, patterns: Seq<Seq<char>>) -> bool {
    exists|k: int, reason: Seq<char>|
        {
            &&& 0 <= k < patterns.len()
            &&& message == #[trigger] bad_pattern(patterns[k], reason)
            &&& !reads_as_glob(patterns[k])
            &&& forall|i: int| 0 <= i < k ==> reads_as_glob(#[trigger] patterns[i])
        }
}

proof fn lemma_pattern_portable(pattern: Seq<char>)
    ensures
        portable(plain_pattern(pattern)),
{
    let plain = plain_pattern(pattern);
    if plain.contains('\\') {
        let i = choose|i: int| 0 <= i < plain.len() && plain[i] == '\\';
        assert(plain[i] != '\\');
    }
}

proof fn lemma_patterns_portable(patterns: Seq<Seq<char>>)
    ensures
        all_portable(plain_patterns(patterns)),
    decreases patterns.len(),
{
    if patterns.len() > 0 {
        lemma_patterns_portable(patterns.drop_last());
        lemma_pattern_portable(patterns.last());
        let front = plain_patterns(patterns.drop_last());
        let plain = plain_patterns(patterns);
        assert forall|i: int| 0 <= i < plain.len() implies portable(#[trigger] plain[i]) by {
            if i < front.len() {
                assert(plain[i] == front[i]);
            }
        }
    }
}

/// The set that the patterns make; none where all are blank. The first text that is no glob
/// pattern is reported as it was given.
pub fn build_globset(patterns: &Vec<String>) -> (r: Result<Option<globset::GlobSet>, String>)
    ensures
        match r {
            Ok(None) => plain_patterns(texts(patterns@)).len() == 0,
            Ok(Some(set)) => {
                &&& set_patterns(set) == plain_patterns(texts(patterns@))
                &&& set_patterns(set).len() > 0
                &&& all_portable(set_patterns(set))
                &&& forall|i: int|
                    0 <= i < patterns@.len() ==> reads_as_glob(#[trigger] texts(patterns@)[i])
            },
            Err(message) => names_bad_pattern(message@, texts(patterns@)) || {
                &&& plain_patterns(texts(patterns@)).len() > 0
                &&& forall|i: int|
                    0 <= i < patterns@.len() ==> reads_as_glob(#[trigger] texts(patterns@)[i])
                &&& exists|reason: Seq<char>| message@ == #[trigger] bad_set(reason)
            },
        },
{
    let ghost all = texts(patterns@);
    let mut builder = new_builder();
    let mut added = false;
    let mut i: usize = 0;
    assert(all.take(0) =~= Seq::<Seq<char>>::empty());
    while i < patterns.len()
        invariant
            i <= patterns@.len(),
            all == texts(patterns@),
            collected_patterns(builder) == plain_patterns(all.take(i as int)),
            added == (plain_patterns(all.take(i as int)).len() > 0),
            forall|k: int| 0 <= k < i ==> reads_as_glob(#[trigger] all[k]),
        decreases patterns.len() - i,
    {
        proof {
            assert(all.take(i + 1).drop_last() =~= all.take(i as int));
            assert(all.take(i + 1).last() == patterns@[i as int]@);
            assert(all[i as int] == patterns@[i as int]@);
            lemma_pattern_portable(all[i as int]);
        }
        let inner = trim_str(patterns[i].as_str());
        if !inner.as_str().is_empty() {
            let plain = replace_char(inner.as_str(), '\\', '/');
            match parse_glob(plain.as_str()) {
                Ok(glob) => {
                    add_glob(&mut builder, glob);
                    added = true;
                },
                Err(reason) => {
                    let mut out = "Invalid glob pattern '".to_owned();
                    out.append(patterns[i].as_str());
                    out.append("': ");
                    out.append(reason.as_str());
                    assert(out@ == bad_pattern(all[i as int], reason@));
                    return Err(out);
                },
            }
        }
        i += 1;
    }
    assert(all.take(i as int) =~= all);
    proof {
        lemma_patterns_portable(all);
    }
    if !added {
        return Ok(None);
    }
    match build_set(&builder) {
        Ok(set) => Ok(Some(set)),
        Err(reason) => {
            let mut out = "Failed to build globset: ".to_owned();
            out.append(reason.as_str());
            assert(out@ == bad_set(reason@));
            Err(out)
        },
    }
}

// ---------------------------------------------------------------------------
// Walking
// ---------------------------------------------------------------------------

/// What a walk comes across.
#[derive(Debug)]
pub enum Walked {
    /// Something that cannot be read, with the path where it is known.
    Failed { path: Option<String>, message: String },
    /// A file or directory. `depth` counts from the directory that is scanned.
    Entry { path: String, depth: usize, is_file: bool },
}

/// The file is read: it is one, it is below the root, and it is wanted.
pub open spec fn job_of(
    root: Seq<char>,
    included: Option<Seq<Seq<char>>>,
    excluded: Option<Seq<Seq<char>>>,
    walked: Walked,
) -> Option<Seq<char>> {
    match walked {
        Walked::Failed { .. } => None,
        Walked::Entry { path, depth, is_file } => if depth == 0 || !is_file {
            None
        } else {
            match scanned_path(root, path@) {
                Some(p) => if wanted(included, excluded, p) {
                    Some(p)
                } else {
                    None
                },
                None => None,
            }
        },
    }
}

/// The files that are read, each once.
pub open spec fn jobs_of(
    root: Seq<char>,
    included: Option<Seq<Seq<char>>>,
    excluded: Option<Seq<Seq<char>>>,
    walk: Seq<Walked>,
) -> Seq<Seq<char>>
    decreases walk.len(),
{
    if walk.len() == 0 {
        Seq::empty()
    } else {
        let before = jobs_of(root, included, excluded, walk.drop_last());
        match job_of(root, included, excluded, walk.last()) {
            Some(path) => if before.contains(path) {
                before
            } else {
                before.push(path)
            },
            None => before,
        }
    }
}

/// What is reported of something that cannot be read: where it is, as far as that is known.
pub open spec fn failure_path(root: Seq<char>, path: Option<Seq<char>>) -> Seq<char> {
    match path {
        Some(p) => match scanned_path(root, p) {
            Some(rest) => rest,
            None => "."@,
        },
        None => "."@,
    }
}

/// What cannot be read, by its path and what went wrong.
pub open spec fn failures_of(root: Seq<char>, walk: Seq<Walked>) -> Seq<(Seq<char>, Seq<char>)>
    decreases walk.len(),
{
    if walk.len() == 0 {
        Seq::empty()
    } else {
        match walk.last() {
            Walked::Failed { path, message } => failures_of(root, walk.drop_last()).push(
                (failure_path(root, text_of(path)), message@),
            ),
            Walked::Entry { .. } => failures_of(root, walk.drop_last()),
        }
    }
}

/// The files were passed over because they cannot be read.
pub open spec fn are_failures(
    skipped: Seq<NativeSkippedFile>,
    failures: Seq<(Seq<char>, Seq<char>)>,
) -> bool {
    &&& skipped.len() == failures.len()
    &&& forall|i: int|
        0 <= i < skipped.len() ==> {
            &&& (#[trigger] skipped[i]).path@ == failures[i].0
            &&& skipped[i].reason@ == "read-error"@
            &&& skipped[i].size is None
            &&& text_of(skipped[i].message) == Some(failures[i].1)
        }
}

fn describe_failure(root: &str, path: &Option<String>, message: &String) -> (r: NativeSkippedFile)
    ensures
        r.path@ == failure_path(root@, text_of(*path)),
        r.reason@ == "read-error"@,
        r.size is None,
        text_of(r.message) == Some(message@),
{
    let found = match path {
        Some(p) => match to_relative_posix(root, p.as_str()) {
            Some(rest) => rest,
            None => ".".to_owned(),
        },
        None => ".".to_owned(),
    };
    NativeSkippedFile {
        path: found,
        reason: "read-error".to_owned(),
        size: None,
        message: Some(message.clone()),
    }
}

/// The path of what was walked over, where it is a file below the root.
fn candidate(root: &str, walked: &Walked) -> (r: Option<String>)
    ensures
        text_of(r) == (match *walked {
            Walked::Failed { path, message } => None,
            Walked::Entry { path, depth, is_file } => if depth == 0 || !is_file {
                None
            } else {
                scanned_path(root@, path@)
            },
        }),
{
    match walked {
        Walked::Failed { path, message } => None,
        Walked::Entry { path, depth, is_file } => if *depth == 0 || !*is_file {
            None
        } else {
            to_relative_posix(root, path.as_str())
        },
    }
}

/// Which files of a walk are read, and what cannot be. Which are wanted is stated where no
/// pattern has a backslash, as systems differ in what that means.
pub fn collect_scan_jobs(
    root: &str,
    included: &Option<globset::GlobSet>,
    excluded: &Option<globset::GlobSet>,
    walk: &Vec<Walked>,
) -> (r: (Vec<String>, Vec<NativeSkippedFile>))
    ensures
        set_portable(*included) && set_portable(*excluded) ==> texts(r.0@) == jobs_of(
            root@,
            patterns_of(*included),
            patterns_of(*excluded),
            walk@,
        ),
        are_failures(r.1@, failures_of(root@, walk@)),
{
    let mut jobs: Vec<String> = Vec::new();
    let mut skipped: Vec<NativeSkippedFile> = Vec::new();
    let mut i: usize = 0;
    assert(walk@.take(0) =~= Seq::<Walked>::empty());
    assert(texts(jobs@) =~= Seq::<Seq<char>>::empty());
    while i < walk.len()
        invariant
            i <= walk@.len(),
            set_portable(*included) && set_portable(*excluded) ==> texts(jobs@) == jobs_of(
                root@,
                patterns_of(*included),
                patterns_of(*excluded),
                walk@.take(i as int),
            ),
            are_failures(skipped@, failures_of(root@, walk@.take(i as int))),
        decreases walk.len() - i,
    {
        proof {
            assert(walk@.take(i + 1).drop_last() =~= walk@.take(i as int));
            assert(walk@.take(i + 1).last() == walk@[i as int]);
        }
        if let Walked::Failed { path, message } = &walk[i] {
            skipped.push(describe_failure(root, path, message));
        }
        if let Some(path) = candidate(root, &walk[i]) {
            assert(portable(path@)) by {
                lemma_scanned_portable(root@, path@, walk@[i as int]);
            }
            if !contains_string(&jobs, path.as_str()) && is_wanted(
                included,
                excluded,
                path.as_str(),
            ) {
                push_text(&mut jobs, path);
            }
        }
        i += 1;
    }
    assert(walk@.take(i as int) =~= walk@);
    (jobs, skipped)
}

/// What remains of a text without its first characters has no character that it lacks.
proof fn lemma_plain_portable(s: Seq<char>)
    ensures
        !plain_path(s).contains('\\'),
{
    let flat = replaced_char(s, '\\', '/');
    assert(!flat.contains('\\'));
    lemma_dots_suffix(flat);
    let k = choose|k: int| 0 <= k <= flat.len() && without_dots(flat) == flat.skip(k);
    assert(!without_dots(flat).contains('\\'));
    lemma_slashes_suffix(without_dots(flat));
    let rest = without_dots(flat);
    let m = choose|m: int| 0 <= m <= rest.len() && without_slashes(rest) == rest.skip(m);
    assert(!without_slashes(rest).contains('\\'));
}

proof fn lemma_dots_suffix(s: Seq<char>)
    ensures
        exists|k: int| 0 <= k <= s.len() && without_dots(s) == s.skip(k),
    decreases s.len(),
{
    if s.len() >= 2 && s[0] == '.' && s[1] == '/' {
        lemma_dots_suffix(s.skip(2));
        let k = choose|k: int|
            0 <= k <= s.skip(2).len() && without_dots(s.skip(2)) == s.skip(2).skip(k);
        assert(s.skip(2).skip(k) =~= s.skip(k + 2));
    } else {
        assert(s.skip(0) =~= s);
    }
}

proof fn lemma_slashes_suffix(s: Seq<char>)
    ensures
        exists|k: int| 0 <= k <= s.len() && without_slashes(s) == s.skip(k),
    decreases s.len(),
{
    if s.len() >= 1 && s[0] == '/' {
        lemma_slashes_suffix(s.drop_first());
        let k = choose|k: int|
            0 <= k <= s.drop_first().len() && without_slashes(s.drop_first())
                == s.drop_first().skip(k);
        assert(s.drop_first().skip(k) =~= s.skip(k + 1));
    } else {
        assert(s.skip(0) =~= s);
    }
}

/// The path of a scanned file has no backslash.
proof fn lemma_scanned_portable(root: Seq<char>, path: Seq<char>, walked: Walked)
    requires
        walked matches Walked::Entry { path: p, .. } && scanned_path(root, p@) == Some(path),
    ensures
        portable(path),
{
    if let Walked::Entry { path: p, .. } = walked {
        lemma_plain_portable(below_any(root, p@)->0);
    }
}

// ---------------------------------------------------------------------------
// Files
// ---------------------------------------------------------------------------

/// The file is larger than it may be.
pub open spec fn too_large(size: u64, max: Option<u64>) -> bool {
    match max {
        Some(limit) => size > limit,
        None => false,
    }
}

/// The report of a file that is too large; `None` where it is not.
pub fn refuse_large(path: &str, size: u64, max: Option<u64>) -> (r: Option<NativeSkippedFile>)
    ensures
        match r {
            Some(s) => {
                &&& too_large(size, max)
                &&& s.path@ == path@
                &&& s.reason@ == "file-too-large"@
                &&& s.size == Some(size)
                &&& s.message is None
            },
            None => !too_large(size, max),
        },
{
    let large = match max {
        Some(limit) => size > limit,
        None => false,
    };
    if large {
        Some(
            NativeSkippedFile {
                path: path.to_owned(),
                reason: "file-too-large".to_owned(),
                size: Some(size),
                message: None,
            },
        )
    } else {
        None
    }
}

/// The report of a file that cannot be read. Its size is known where it could be asked for.
pub fn unreadable(path: &str, size: Option<u64>, error: &str) -> (r: NativeSkippedFile)
    ensures
        r.path@ == path@,
        r.reason@ == "read-error"@,
        r.size == size,
        text_of(r.message) == Some(error@),
{
    NativeSkippedFile {
        path: path.to_owned(),
        reason: "read-error".to_owned(),
        size,
        message: Some(error.to_owned()),
    }
}

/// The first bytes that tell whether a file is binary.
pub open spec fn probe(bytes: Seq<u8>) -> Seq<u8> {
    if bytes.len() <= BINARY_PROBE {
        bytes
    } else {
        bytes.take(BINARY_PROBE as int)
    }
}

fn probe_binary(bytes: &Vec<u8>) -> (r: bool)
    ensures
        r == probe(bytes@).contains(0u8),
{
    let mut i: usize = 0;
    while i < bytes.len() && i < BINARY_PROBE
        invariant
            i <= bytes@.len(),
            i <= BINARY_PROBE,
            forall|k: int| 0 <= k < i ==> bytes@[k] != 0,
        decreases bytes.len() - i,
    {
        if bytes[i] == 0 {
            assert(probe(bytes@)[i as int] == 0);
            return true;
        }
        i += 1;
    }
    assert(!probe(bytes@).contains(0u8));
    false
}

/// A file that was read: its digest, and its text where it is wanted and there is one.
pub fn scan_file(path: String, size: u64, modified: Option<u64>, bytes: Vec<u8>, needs_content: bool)
    -> (r: NativeFileEntry)
    ensures
        r.path == path,
        r.size == size,
        r.modified == (match modified {
            Some(ms) => ms,
            None => 0,
        }),
        r.hash@ == sha256_text(bytes@),
        r.is_binary == probe(bytes@).contains(0u8),
        text_of(r.content) == (if needs_content && !r.is_binary {
            Some(lossy_text(bytes@))
        } else {
            None
        }),
{
    let is_binary = probe_binary(&bytes);
    let content = if needs_content && !is_binary {
        Some(read_lossy(bytes.as_slice()))
    } else {
        None
    };
    NativeFileEntry {
        path,
        size,
        modified: match modified {
            Some(ms) => ms,
            None => 0,
        },
        hash: sha256_hex(bytes.as_slice()),
        content,
        is_binary,
    }
}

// ---------------------------------------------------------------------------
// Order
// ---------------------------------------------------------------------------

/// The items with one more, in its place among those that are sorted by their keys: behind
/// those with the same key.
pub open spec fn placed<T>(s: Seq<T>, key: spec_fn(T) -> Seq<char>, x: T) -> Seq<T>
    decreases s.len(),
{
    if s.len() == 0 {
        seq![x]
    } else if text_before(key(x), key(s.last())) {
        placed(s.drop_last(), key, x).push(s.last())
    } else {
        s.push(x)
    }
}

/// The items sorted by their keys; those with the same key keep their order.
pub open spec fn sorted_by<T>(s: Seq<T>, key: spec_fn(T) -> Seq<char>) -> Seq<T>
    decreases s.len(),
{
    if s.len() == 0 {
        s
    } else {
        placed(sorted_by(s.drop_last(), key), key, s.last())
    }
}

/// The items are in the order of their keys.
pub open spec fn ordered<T>(s: Seq<T>, key: spec_fn(T) -> Seq<char>) -> bool {
    forall|i: int, j: int|
        0 <= i < j < s.len() ==> !text_before(key(#[trigger] s[j]), key(#[trigger] s[i]))
}

proof fn lemma_placed<T>(s: Seq<T>, key: spec_fn(T) -> Seq<char>, x: T)
    requires
        ordered(s, key),
    ensures
        ordered(placed(s, key, x), key),
        placed(s, key, x).to_multiset() == s.to_multiset().insert(x),
        placed(s, key, x).len() == s.len() + 1,
    decreases s.len(),
{
    broadcast use vstd::seq_lib::group_to_multiset_ensures;

    if s.len() == 0 {
        assert(s.push(x) =~= seq![x]);
    } else if text_before(key(x), key(s.last())) {
        let front = s.drop_last();
        lemma_placed(front, key, x);
        let inner = placed(front, key, x);
        let all = inner.push(s.last());
        assert(front.push(s.last()) =~= s);
        assert(front.to_multiset().insert(x).insert(s.last()) =~= front.to_multiset().insert(
            s.last(),
        ).insert(x));
        assert forall|i: int, j: int| 0 <= i < j < all.len() implies !text_before(
            key(#[trigger] all[j]),
            key(#[trigger] all[i]),
        ) by {
            if j == inner.len() {
                assert(inner.to_multiset().contains(inner[i]));
                assert(inner.contains(inner[i]));
                if inner[i] == x {
                    lemma_text_order(key(x), key(s.last()));
                } else {
                    assert(front.to_multiset().contains(inner[i]));
                    assert(front.contains(inner[i]));
                    let k = choose|k: int| 0 <= k < front.len() && front[k] == inner[i];
                    assert(s[k] == inner[i]);
                    assert(!text_before(key(s[s.len() - 1]), key(s[k])));
                }
            } else {
                assert(all[i] == inner[i] && all[j] == inner[j]);
            }
        }
    } else {
        let all = s.push(x);
        assert forall|i: int, j: int| 0 <= i < j < all.len() implies !text_before(
            key(#[trigger] all[j]),
            key(#[trigger] all[i]),
        ) by {
            if j == s.len() {
                if text_before(key(x), key(s[i])) {
                    if i < s.len() - 1 {
                        assert(!text_before(key(s[s.len() - 1]), key(s[i])));
                        lemma_text_order(key(s[s.len() - 1]), key(s[i]));
                        if text_before(key(s[i]), key(s[s.len() - 1])) {
                            lemma_text_transitive(key(x), key(s[i]), key(s[s.len() - 1]));
                        }
                    }
                }
            } else {
                assert(all[i] == s[i] && all[j] == s[j]);
            }
        }
    }
}

/// Sorting loses nothing and adds nothing, and afterwards the items are in the order of
/// their keys.
pub proof fn law_sorted_by<T>(s: Seq<T>, key: spec_fn(T) -> Seq<char>)
    ensures
        ordered(sorted_by(s, key), key),
        sorted_by(s, key).to_multiset() == s.to_multiset(),
        sorted_by(s, key).len() == s.len(),
    decreases s.len(),
{
    broadcast use vstd::seq_lib::group_to_multiset_ensures;

    if s.len() > 0 {
        law_sorted_by(s.drop_last(), key);
        lemma_placed(sorted_by(s.drop_last(), key), key, s.last());
        assert(s.drop_last().push(s.last()) =~= s);
    }
}

/// The path of a file that was read.
pub open spec fn file_key() -> spec_fn(NativeFileEntry) -> Seq<char> {
    |e: NativeFileEntry| e.path@
}

/// The path of a file of which only size and time are known.
pub open spec fn metadata_key() -> spec_fn(NativeMetadataEntry) -> Seq<char> {
    |e: NativeMetadataEntry| e.path@
}

/// Where an item with this path goes among the first `n` sorted ones.
proof fn lemma_place_at<T>(s: Seq<T>, key: spec_fn(T) -> Seq<char>, x: T, k: int)
    requires
        0 <= k <= s.len(),
        forall|i: int| k <= i < s.len() ==> text_before(key(x), key(#[trigger] s[i])),
        k > 0 ==> !text_before(key(x), key(s[k - 1])),
    ensures
        placed(s, key, x) == s.insert(k, x),
    decreases s.len() - k,
{
    if k == s.len() {
        assert(s.insert(k, x) =~= s.push(x));
        if s.len() == 0 {
            assert(s.push(x) =~= seq![x]);
        }
    } else {
        let front = s.drop_last();
        lemma_place_at(front, key, x, k);
        assert(front.insert(k, x).push(s.last()) =~= s.insert(k, x));
    }
}

/// The files that were read, in the order of their paths.
pub fn sort_files(files: Vec<NativeFileEntry>) -> (r: Vec<NativeFileEntry>)
    ensures
        r@ == sorted_by(files@, file_key()),
{
    let ghost all = files@;
    let mut out: Vec<NativeFileEntry> = Vec::new();
    let ghost mut n: int = 0;
    assert(all.take(0) =~= Seq::<NativeFileEntry>::empty());
    for file in it: files
        invariant
            it.seq() == all,
            n == it.index(),
            0 <= n <= all.len(),
            out@ == sorted_by(all.take(n), file_key()),
    {
        proof {
            assert(all.take(n + 1).drop_last() =~= all.take(n));
            assert(all.take(n + 1).last() == file);
        }
        let mut k: usize = out.len();
        while k > 0 && is_before(file.path.as_str(), out[k - 1].path.as_str())
            invariant
                k <= out@.len(),
                forall|i: int|
                    k <= i < out@.len() ==> text_before(file.path@, (#[trigger] out@[i]).path@),
            decreases k,
        {
            k -= 1;
        }
        proof {
            lemma_place_at(out@, file_key(), file, k as int);
        }
        out.insert(k, file);
        proof {
            n = n + 1;
        }
    }
    assert(all.take(n) =~= all);
    out
}

/// The files of which only size and time are known, in the order of their paths.
pub fn sort_metadata(entries: Vec<NativeMetadataEntry>) -> (r: Vec<NativeMetadataEntry>)
    ensures
        r@ == sorted_by(entries@, metadata_key()),
{
    let ghost all = entries@;
    let mut out: Vec<NativeMetadataEntry> = Vec::new();
    let ghost mut n: int = 0;
    assert(all.take(0) =~= Seq::<NativeMetadataEntry>::empty());
    for entry in it: entries
        invariant
            it.seq() == all,
            n == it.index(),
            0 <= n <= all.len(),
            out@ == sorted_by(all.take(n), metadata_key()),
    {
        proof {
            assert(all.take(n + 1).drop_last() =~= all.take(n));
            assert(all.take(n + 1).last() == entry);
        }
        let mut k: usize = out.len();
        while k > 0 && is_before(entry.path.as_str(), out[k - 1].path.as_str())
            invariant
                k <= out@.len(),
                forall|i: int|
                    k <= i < out@.len() ==> text_before(entry.path@, (#[trigger] out@[i]).path@),
            decreases k,
        {
            k -= 1;
        }
        proof {
            lemma_place_at(out@, metadata_key(), entry, k as int);
        }
        out.insert(k, entry);
        proof {
            n = n + 1;
        }
    }
    assert(all.take(n) =~= all);
    out
}

/// What became of a file that was to be read.
#[derive(Debug)]
pub enum ScanOutcome<T> {
    File(T),
    Skipped(NativeSkippedFile),
}

/// The files among the outcomes.
pub open spec fn files_of<T>(outcomes: Seq<ScanOutcome<T>>) -> Seq<T>
    decreases outcomes.len(),
{
    if outcomes.len() == 0 {
        Seq::empty()
    } else {
        match outcomes.last() {
            ScanOutcome::File(file) => files_of(outcomes.drop_last()).push(file),
            ScanOutcome::Skipped(_) => files_of(outcomes.drop_last()),
        }
    }
}

/// What was passed over among the outcomes.
pub open spec fn refusals_of<T>(outcomes: Seq<ScanOutcome<T>>) -> Seq<NativeSkippedFile>
    decreases outcomes.len(),
{
    if outcomes.len() == 0 {
        Seq::empty()
    } else {
        match outcomes.last() {
            ScanOutcome::File(_) => refusals_of(outcomes.drop_last()),
            ScanOutcome::Skipped(file) => refusals_of(outcomes.drop_last()).push(file),
        }
    }
}

/// What a scan reports.
#[derive(Debug)]
pub struct NativeScanResult {
    pub files: Vec<NativeFileEntry>,
    pub skipped: Vec<NativeSkippedFile>,
}

/// What a scan for sizes and times reports.
#[derive(Debug)]
pub struct NativeMetadataResult {
    pub entries: Vec<NativeMetadataEntry>,
    pub skipped: Vec<NativeSkippedFile>,
}

/// The files among the outcomes, and behind what was passed over before what was passed
/// over among them.
fn separate<T>(skipped: Vec<NativeSkippedFile>, outcomes: Vec<ScanOutcome<T>>) -> (r: (
    Vec<T>,
    Vec<NativeSkippedFile>,
))
    ensures
        r.0@ == files_of(outcomes@),
        r.1@ == skipped@ + refusals_of(outcomes@),
{
    let ghost all = outcomes@;
    let ghost given = skipped@;
    let mut files: Vec<T> = Vec::new();
    let mut skipped = skipped;
    let ghost mut n: int = 0;
    assert(all.take(0) =~= Seq::<ScanOutcome<T>>::empty());
    assert(skipped@ =~= given + refusals_of(all.take(0)));
    for outcome in it: outcomes
        invariant
            it.seq() == all,
            n == it.index(),
            0 <= n <= all.len(),
            files@ == files_of(all.take(n)),
            skipped@ == given + refusals_of(all.take(n)),
    {
        proof {
            assert(all.take(n + 1).drop_last() =~= all.take(n));
            assert(all.take(n + 1).last() == outcome);
        }
        match outcome {
            ScanOutcome::File(file) => {
                files.push(file);
            },
            ScanOutcome::Skipped(file) => {
                skipped.push(file);
                assert(skipped@ =~= given + refusals_of(all.take(n + 1)));
            },
        }
        proof {
            n = n + 1;
        }
    }
    assert(all.take(n) =~= all);
    (files, skipped)
}

/// What a scan reports: the files in the order of their paths, and behind what was passed
/// over on the walk what was passed over when it was read.
pub fn scan_result(skipped: Vec<NativeSkippedFile>, outcomes: Vec<ScanOutcome<NativeFileEntry>>)
    -> (r: NativeScanResult)
    ensures
        r.files@ == sorted_by(files_of(outcomes@), file_key()),
        r.skipped@ == skipped@ + refusals_of(outcomes@),
{
    let (files, skipped) = separate(skipped, outcomes);
    NativeScanResult { files: sort_files(files), skipped }
}

/// What a scan for sizes and times reports, in the same order.
pub fn metadata_result(
    skipped: Vec<NativeSkippedFile>,
    outcomes: Vec<ScanOutcome<NativeMetadataEntry>>,
) -> (r: NativeMetadataResult)
    ensures
        r.entries@ == sorted_by(files_of(outcomes@), metadata_key()),
        r.skipped@ == skipped@ + refusals_of(outcomes@),
{
    let (entries, skipped) = separate(skipped, outcomes);
    NativeMetadataResult { entries: sort_metadata(entries), skipped }
}

/// What is said where the directory that is to be scanned is none.
pub fn not_a_directory(operation: &str, root: &str) -> (r: String)
    ensures
        r@ == operation@ + " root must be a directory: "@ + root@,
{
    let mut out = operation.to_owned();
    out.append(" root must be a directory: ");
    out.append(root);
    out
}

// ---------------------------------------------------------------------------
// What holds of a scan
// ---------------------------------------------------------------------------

proof fn lemma_without_dots(s: Seq<char>)
    ensures
        without_dots(s).is_suffix_of(s),
        !(without_dots(s).len() >= 2 && without_dots(s)[0] == '.' && without_dots(s)[1] == '/'),
    decreases s.len(),
{
    if s.len() >= 2 && s[0] == '.' && s[1] == '/' {
        let rest = s.skip(2);
        lemma_without_dots(rest);
        let t = without_dots(rest);
        assert(t =~= rest.subrange(rest.len() - t.len(), rest.len() as int));
        assert(t =~= s.subrange(s.len() - t.len(), s.len() as int));
    } else {
        assert(s =~= s.subrange(0, s.len() as int));
    }
}

proof fn lemma_without_slashes(s: Seq<char>)
    ensures
        without_slashes(s).is_suffix_of(s),
        without_slashes(s).len() > 0 ==> without_slashes(s)[0] != '/',
    decreases s.len(),
{
    if s.len() >= 1 && s[0] == '/' {
        let rest = s.drop_first();
        lemma_without_slashes(rest);
        let t = without_slashes(rest);
        assert(t =~= rest.subrange(rest.len() - t.len(), rest.len() as int));
        assert(t =~= s.subrange(s.len() - t.len(), s.len() as int));
    } else {
        assert(s =~= s.subrange(0, s.len() as int));
    }
}

/// A plain path has no backslash and begins with no slash; it is the end of the path, and
/// all of it where that has neither and does not begin with a dot and a slash.
pub proof fn law_plain_path(s: Seq<char>)
    ensures
        !plain_path(s).contains('\\'),
        plain_path(s).len() > 0 ==> plain_path(s)[0] != '/',
        plain_path(s).len() <= s.len(),
        !s.contains('\\') && (s.len() == 0 || s[0] != '/') && !(s.len() >= 2 && s[0] == '.' && s[1]
            == '/') ==> plain_path(s) == s,
{
    let r = replaced_char(s, '\\', '/');
    lemma_without_dots(r);
    let d = without_dots(r);
    lemma_without_slashes(d);
    let t = plain_path(s);
    assert forall|i: int| 0 <= i < t.len() implies t[i] != '\\' by {
        assert(t[i] == d.subrange(d.len() - t.len(), d.len() as int)[i]);
        let j = d.len() - t.len() + i;
        assert(d[j] == r.subrange(r.len() - d.len(), r.len() as int)[j]);
    }
    if !s.contains('\\') {
        assert(r =~= s) by {
            assert forall|i: int| 0 <= i < s.len() implies s[i] != '\\' by {
                if s[i] == '\\' {
                    assert(s.contains('\\'));
                }
            }
        }
    }
}

/// A path whose parts all name something, and of which none is a dot or leads upward, is
/// read as it is asked for.
pub proof fn law_requested_as_asked(path: Seq<char>)
    requires
        trimmed(path) == path,
        path.len() > 0,
        !path.contains('\\'),
        forall|i: int|
            0 <= i < split_on(path, '/').len() ==> {
                let part = #[trigger] split_on(path, '/')[i];
                part.len() > 0 && part != "."@ && part != ".."@
            },
    ensures
        requested_path(path) == Some(path),
{
    reveal_strlit(".");
    reveal_strlit("/");
    let parts = split_on(path, '/');
    crate::pieces::law_split_joined(path, '/');
    crate::pieces::lemma_position_of(path, '/');
    let p = crate::pieces::position_of(path, '/');
    assert(parts[0].len() > 0);
    if p < path.len() {
        assert(parts[0] == path.take(p));
    } else {
        assert(parts[0] == path);
    }
    assert(path[0] != '/') by {
        if path[0] == '/' {
            assert(p == 0);
        }
    }
    assert(!(path.len() >= 2 && path[0] == '.' && path[1] == '/')) by {
        if path.len() >= 2 && path[0] == '.' && path[1] == '/' {
            assert(p == 1) by {
                assert(p <= 1);
                assert(p != 0);
            }
            assert(parts[0] =~= "."@);
        }
    }
    law_plain_path(path);
    lemma_all_kept(parts);
    assert("/"@ =~= seq!['/']);
}

proof fn lemma_all_kept(parts: Seq<Seq<char>>)
    requires
        forall|i: int| 0 <= i < parts.len() ==> #[trigger] parts[i] != "."@,
    ensures
        without_single_dots(parts) == parts,
    decreases parts.len(),
{
    reveal(Seq::filter);
    if parts.len() > 0 {
        lemma_all_kept(parts.drop_last());
        assert(parts.drop_last().push(parts.last()) =~= parts);
    } else {
        assert(without_single_dots(parts) =~= parts);
    }
}

/// A path is read exactly where someone asks for it.
pub proof fn law_requested_complete(paths: Seq<Seq<char>>, path: Seq<char>)
    ensures
        requested_files(paths).contains(path) <==> exists|i: int|
            0 <= i < paths.len() && requested_path(#[trigger] paths[i]) == Some(path),
    decreases paths.len(),
{
    if paths.len() > 0 {
        let front = paths.drop_last();
        law_requested_complete(front, path);
        let before = requested_files(front);
        let all = requested_files(paths);
        if before.contains(path) {
            let k = choose|k: int| 0 <= k < before.len() && before[k] == path;
            assert(all[k] == path);
            let i = choose|i: int|
                0 <= i < front.len() && requested_path(#[trigger] front[i]) == Some(path);
            assert(paths[i] == front[i]);
        } else {
            if requested_path(paths.last()) == Some(path) {
                assert(all[before.len() as int] == path);
                assert(requested_path(paths[paths.len() - 1]) == Some(path));
            } else if all.contains(path) {
                let k = choose|k: int| 0 <= k < all.len() && all[k] == path;
                if k < before.len() {
                    assert(before[k] == path);
                }
            }
            if exists|i: int|
                0 <= i < paths.len() && requested_path(#[trigger] paths[i]) == Some(path) {
                let i = choose|i: int|
                    0 <= i < paths.len() && requested_path(#[trigger] paths[i]) == Some(path);
                if i < front.len() {
                    assert(front[i] == paths[i]);
                }
            }
        }
    }
}

/// What a walk comes across is read exactly where it is a file, is not where the walk
/// began, lies below the root, and is wanted.
pub proof fn law_job(
    root: Seq<char>,
    included: Option<Seq<Seq<char>>>,
    excluded: Option<Seq<Seq<char>>>,
    path: String,
    depth: usize,
    is_file: bool,
    message: String,
)
    ensures
        ({
            let entry = Walked::Entry { path, depth, is_file };
            let job = job_of(root, included, excluded, entry);
            &&& !is_file || depth == 0 ==> job is None
            &&& scanned_path(root, path@) is None ==> job is None
            &&& scanned_path(root, path@) matches Some(p) ==> !wanted(included, excluded, p) ==> job
                is None
            &&& scanned_path(root, path@) matches Some(p) ==> is_file && depth > 0 && wanted(
                included,
                excluded,
                p,
            ) ==> job == Some(p)
        }),
        job_of(root, included, excluded, Walked::Failed { path: Some(path), message }) is None,
{
}

/// Each file that is to be read is read once, and no other.
pub proof fn law_jobs(
    root: Seq<char>,
    included: Option<Seq<Seq<char>>>,
    excluded: Option<Seq<Seq<char>>>,
    walk: Seq<Walked>,
    path: Seq<char>,
)
    ensures
        jobs_of(root, included, excluded, walk).contains(path) <==> exists|i: int|
            0 <= i < walk.len() && job_of(root, included, excluded, #[trigger] walk[i]) == Some(
                path,
            ),
        jobs_of(root, included, excluded, walk).no_duplicates(),
    decreases walk.len(),
{
    if walk.len() > 0 {
        let front = walk.drop_last();
        law_jobs(root, included, excluded, front, path);
        let before = jobs_of(root, included, excluded, front);
        let all = jobs_of(root, included, excluded, walk);
        let job = job_of(root, included, excluded, walk.last());
        if before.contains(path) {
            let k = choose|k: int| 0 <= k < before.len() && before[k] == path;
            assert(all[k] == path);
            let i = choose|i: int|
                0 <= i < front.len() && job_of(root, included, excluded, #[trigger] front[i])
                    == Some(path);
            assert(walk[i] == front[i]);
        } else {
            if job == Some(path) {
                assert(all[before.len() as int] == path);
                assert(job_of(root, included, excluded, walk[walk.len() - 1]) == Some(path));
            } else if all.contains(path) {
                let k = choose|k: int| 0 <= k < all.len() && all[k] == path;
                if k < before.len() {
                    assert(before[k] == path);
                }
            }
            if exists|i: int|
                0 <= i < walk.len() && job_of(root, included, excluded, #[trigger] walk[i]) == Some(
                    path,
                ) {
                let i = choose|i: int|
                    0 <= i < walk.len() && job_of(root, included, excluded, #[trigger] walk[i])
                        == Some(path);
                if i < front.len() {
                    assert(front[i] == walk[i]);
                }
            }
        }
    }
}

/// Each failure of a walk is reported, in their order, and nothing else is.
pub proof fn law_failures(root: Seq<char>, front: Seq<Walked>, step: Walked, back: Seq<Walked>)
    ensures
        failures_of(root, front + seq![step] + back) == failures_of(root, front) + (match step {
            Walked::Failed { path, message } => seq![
                (failure_path(root, text_of(path)), message@),
            ],
            Walked::Entry { .. } => Seq::empty(),
        }) + failures_of(root, back),
        failures_of(root, Seq::empty()).len() == 0,
        failure_path(root, None) == "."@,
    decreases back.len(),
{
    let all = front + seq![step] + back;
    let found = match step {
        Walked::Failed { path, message } => seq![(failure_path(root, text_of(path)), message@)],
        Walked::Entry { .. } => Seq::empty(),
    };
    if back.len() == 0 {
        assert(all.drop_last() =~= front);
        assert(all.last() == step);
        assert(failures_of(root, all) =~= failures_of(root, front) + found + failures_of(
            root,
            back,
        ));
    } else {
        law_failures(root, front, step, back.drop_last());
        assert(all.drop_last() =~= front + seq![step] + back.drop_last());
        assert(all.last() == back.last());
        assert(failures_of(root, all) =~= failures_of(root, front) + found + failures_of(
            root,
            back,
        ));
    }
}

/// A file of exactly the greatest size may be read, and without a greatest size all may.
pub proof fn law_too_large(size: u64, max: u64)
    ensures
        too_large(size, Some(max)) <==> size > max,
        !too_large(size, None),
{
}

/// Only the first 1024 bytes tell whether a file is binary, and all of them do.
pub proof fn law_probe(bytes: Seq<u8>, i: int)
    requires
        0 <= i < bytes.len(),
        bytes[i] == 0,
    ensures
        i < 1024 ==> probe(bytes).contains(0u8),
        (forall|k: int| 0 <= k < 1024 && k < bytes.len() ==> bytes[k] != 0) ==> !probe(
            bytes,
        ).contains(0u8),
{
    if i < 1024 {
        assert(probe(bytes)[i] == 0);
    }
}

/// The paths of what was read go up: none stands before an earlier one.
pub proof fn law_files_sorted(files: Seq<NativeFileEntry>, i: int, j: int)
    requires
        0 <= i < j < files.len(),
    ensures
        sorted_by(files, file_key()).len() == files.len(),
        !text_before(
            sorted_by(files, file_key())[j].path@,
            sorted_by(files, file_key())[i].path@,
        ),
        sorted_by(files, file_key()).to_multiset() == files.to_multiset(),
{
    law_sorted_by(files, file_key());
    let s = sorted_by(files, file_key());
    assert(!text_before(file_key()(s[j]), file_key()(s[i])));
}

/// The paths of what was looked at go up.
pub proof fn law_metadata_sorted(entries: Seq<NativeMetadataEntry>, i: int, j: int)
    requires
        0 <= i < j < entries.len(),
    ensures
        sorted_by(entries, metadata_key()).len() == entries.len(),
        !text_before(
            sorted_by(entries, metadata_key())[j].path@,
            sorted_by(entries, metadata_key())[i].path@,
        ),
{
    law_sorted_by(entries, metadata_key());
    let s = sorted_by(entries, metadata_key());
    assert(!text_before(metadata_key()(s[j]), metadata_key()(s[i])));
}

/// Every outcome is a file or was passed over, and stands on that side in its order.
pub proof fn law_outcomes<T>(outcomes: Seq<ScanOutcome<T>>, last: ScanOutcome<T>)
    ensures
        files_of(outcomes).len() + refusals_of(outcomes).len() == outcomes.len(),
        last matches ScanOutcome::File(f) ==> files_of(outcomes.push(last)) == files_of(
            outcomes,
        ).push(f) && refusals_of(outcomes.push(last)) == refusals_of(outcomes),
        last matches ScanOutcome::Skipped(s) ==> refusals_of(outcomes.push(last)) == refusals_of(
            outcomes,
        ).push(s) && files_of(outcomes.push(last)) == files_of(outcomes),
    decreases outcomes.len(),
{
    assert(outcomes.push(last).drop_last() =~= outcomes);
    if outcomes.len() > 0 {
        law_outcomes(outcomes.drop_last(), last);
    }
}

/// The patterns are used in their order, trimmed and with forward slashes; blank ones are
/// left out.
pub proof fn law_plain_patterns(
    front: Seq<Seq<char>>,
    pattern: Seq<char>,
    back: Seq<Seq<char>>,
)
    ensures
        plain_patterns(front + seq![pattern] + back) == plain_patterns(front) + (if trimmed(
            pattern,
        ).len() == 0 {
            Seq::empty()
        } else {
            seq![replaced_char(trimmed(pattern), '\\', '/')]
        }) + plain_patterns(back),
        plain_patterns(Seq::empty()).len() == 0,
    decreases back.len(),
{
    let all = front + seq![pattern] + back;
    let kept = if trimmed(pattern).len() == 0 {
        Seq::empty()
    } else {
        seq![replaced_char(trimmed(pattern), '\\', '/')]
    };
    if back.len() == 0 {
        assert(all.drop_last() =~= front);
        assert(all.last() == pattern);
        assert(plain_patterns(all) =~= plain_patterns(front) + kept + plain_patterns(back));
    } else {
        law_plain_patterns(front, pattern, back.drop_last());
        assert(all.drop_last() =~= front + seq![pattern] + back.drop_last());
        assert(all.last() == back.last());
        assert(plain_patterns(all) =~= plain_patterns(front) + kept + plain_patterns(back));
    }
}

/// A file below a scanned directory is known by its plain path.
pub proof fn law_scanned_path(root: Seq<char>, path: Seq<char>)
    requires
        root.len() > 0,
        root[0] == '/',
        root.last() != '/',
        path.len() > 0,
        !path.contains('\\'),
        path[0] != '/',
        !(path.len() >= 2 && path[0] == '.' && path[1] == '/'),
        crate::paths::is_real(split_on(path, '/')[0]),
        crate::paths::is_real(split_on(path, '/').last()),
    ensures
        scanned_path(root, root + seq!['/'] + path) == Some(path),
{
    crate::paths::law_below_again(root, path);
    crate::paths::law_path_in(root, path);
    law_plain_path(path);
}

} // verus!
