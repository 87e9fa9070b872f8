//! Watches a workspace: which changes matter, when they are ingested, and what becomes of
//! changes that come while an ingestion runs.

use vstd::prelude::*;
use crate::globs::{
    all_parse, compile_globs, default_exclude_globs, default_include_globs, excluded_by_default,
    glob_parses, included_by_default, is_wanted, patterns_of, portable, set_portable, wanted,
    GlobProblem,
};
use crate::git_timeline::clone_texts;
use crate::ingest::IngestParams;
use crate::paths::{below_any, join_path, path_in, strip_prefix};
use crate::pieces::{contains_string, push_text, replace_char, replaced_char, texts};
use crate::text::same_text;

verus! {

// ---------------------------------------------------------------------------
// What is watched
// ---------------------------------------------------------------------------

/// What a watcher is asked to do.
#[derive(Debug, Clone)]
pub struct WatcherOptions {
    pub root: String,
    pub database_name: String,
    pub debounce_ms: u64,
    pub run_initial: bool,
    pub quiet: bool,
}

/// Why nothing can be watched. What went wrong outside is given in words.
#[derive(Debug)]
pub enum WatcherError {
    InvalidRoot { path: String, source: String },
    Notify(String),
}

impl WatcherError {
    /// The error in words.
    pub fn message(&self) -> (r: String)
        ensures
            r@ == match *self {
                WatcherError::InvalidRoot { path, source } => "failed to resolve watch root '"@
                    + path@ + "': "@ + source@,
                WatcherError::Notify(message) => "notify error: "@ + message@,
            },
    {
        match self {
            WatcherError::InvalidRoot { path, source } => {
                let mut out = "failed to resolve watch root '".to_owned();
                out.append(path.as_str());
                out.append("': ");
                out.append(source.as_str());
                out
            },
            WatcherError::Notify(message) => {
                let mut out = "notify error: ".to_owned();
                out.append(message.as_str());
                out
            },
        }
    }
}

/// What a watcher knows of the workspace.
#[derive(Debug)]
pub struct WatchContext {
    pub absolute_root: String,
    pub database_name: String,
    pub include_matcher: Option<globset::GlobSet>,
    pub exclude_matcher: Option<globset::GlobSet>,
    pub include_patterns: Vec<String>,
    pub exclude_patterns: Vec<String>,
    pub debounce_ms: u64,
    pub quiet: bool,
}

/// The patterns of what is not watched: the usual ones and the files of the database.
pub open spec fn unwatched(database: Seq<char>) -> Seq<Seq<char>> {
    default_exclude_globs().push("**/"@ + database).push("**/"@ + database + "-wal"@).push(
        "**/"@ + database + "-shm"@,
    )
}

fn push_database_pattern(out: &mut Vec<String>, database: &str, ending: &str)
    ensures
        texts(final(out)@) == texts(old(out)@).push("**/"@ + database@ + ending@),
{
    let mut pattern = "**/".to_owned();
    pattern.append(database);
    pattern.append(ending);
    push_text(out, pattern);
}

/// The patterns of what is not watched.
pub fn watch_exclude_patterns(database: &str) -> (r: Vec<String>)
    ensures
        texts(r@) == unwatched(database@),
{
    let mut out = excluded_by_default();
    let mut pattern = "**/".to_owned();
    pattern.append(database);
    push_text(&mut out, pattern);
    push_database_pattern(&mut out, database, "-wal");
    push_database_pattern(&mut out, database, "-shm");
    out
}

fn notify_problem(problem: GlobProblem) -> (r: WatcherError)
    ensures
        match problem {
            GlobProblem::Pattern { pattern, message } => r == WatcherError::Notify(message),
            GlobProblem::Whole { message } => r == WatcherError::Notify(message),
        },
{
    match problem {
        GlobProblem::Pattern { pattern, message } => WatcherError::Notify(message),
        GlobProblem::Whole { message } => WatcherError::Notify(message),
    }
}

/// What a watcher knows of a workspace with this root. It fails where a pattern is no glob
/// pattern, as the name of the database may make one, and where the patterns together are
/// too large to compile.
pub fn watch_context(options: &WatcherOptions, absolute_root: String) -> (r: Result<
    WatchContext,
    WatcherError,
>)
    ensures
        match r {
            Ok(c) => {
                &&& c.absolute_root == absolute_root
                &&& c.database_name@ == options.database_name@
                &&& texts(c.include_patterns@) == default_include_globs()
                &&& texts(c.exclude_patterns@) == unwatched(options.database_name@)
                &&& patterns_of(c.include_matcher) == Some(default_include_globs())
                &&& patterns_of(c.exclude_matcher) == Some(unwatched(options.database_name@))
                &&& all_parse(default_include_globs())
                &&& all_parse(unwatched(options.database_name@))
                &&& c.debounce_ms == options.debounce_ms
                &&& c.quiet == options.quiet
            },
            Err(e) => e is Notify,
        },
{
    let include_patterns = included_by_default();
    let exclude_patterns = watch_exclude_patterns(options.database_name.as_str());
    assert(texts(include_patterns@).len() == include_patterns@.len());
    assert(texts(exclude_patterns@).len() == exclude_patterns@.len());
    let include_matcher = match compile_globs(&include_patterns) {
        Ok(set) => set,
        Err(problem) => return Err(notify_problem(problem)),
    };
    let exclude_matcher = match compile_globs(&exclude_patterns) {
        Ok(set) => set,
        Err(problem) => return Err(notify_problem(problem)),
    };
    proof {
        let included = texts(include_patterns@);
        let excluded = texts(exclude_patterns@);
        assert forall|i: int| 0 <= i < included.len() && portable(
            #[trigger] included[i],
        ) implies glob_parses(included[i]) by {
            assert(included[i] == include_patterns@[i]@);
        }
        assert forall|i: int| 0 <= i < excluded.len() && portable(
            #[trigger] excluded[i],
        ) implies glob_parses(excluded[i]) by {
            assert(excluded[i] == exclude_patterns@[i]@);
        }
    }
    Ok(
        WatchContext {
            absolute_root,
            database_name: options.database_name.clone(),
            include_matcher,
            exclude_matcher,
            include_patterns,
            exclude_patterns,
            debounce_ms: options.debounce_ms,
            quiet: options.quiet,
        },
    )
}

/// The path below the root that a change is reported for; `None` where it is not below the
/// root, or is the root itself.
pub open spec fn relative_of(root: Seq<char>, candidate: Seq<char>) -> Option<Seq<char>> {
    match below_any(root, path_in(root, candidate)) {
        Some(rest) => if rest.len() == 0 {
            None
        } else {
            Some(replaced_char(rest, '\\', '/'))
        },
        None => None,
    }
}

/// The path below the root that a change is reported for.
pub fn normalize_relative_path(root: &str, candidate: &str) -> (r: Option<String>)
    ensures
        match r {
            Some(path) => relative_of(root@, candidate@) == Some(path@) && portable(path@),
            None => relative_of(root@, candidate@) is None,
        },
{
    let absolute = join_path(root, candidate);
    match strip_prefix(root, absolute.as_str()) {
        Some(rest) => {
            if rest.as_str().is_empty() {
                return None;
            }
            let path = replace_char(rest.as_str(), '\\', '/');
            assert(portable(path@)) by {
                if path@.contains('\\') {
                    let i = choose|i: int| 0 <= i < path@.len() && path@[i] == '\\';
                    assert(replaced_char(rest@, '\\', '/')[i] != '\\');
                }
            }
            Some(path)
        },
        None => None,
    }
}

/// Whether a change of the file at this path matters. It is stated where no pattern has a
/// backslash, as systems differ in what that means.
pub fn should_track(context: &WatchContext, relative: &str) -> (r: bool)
    ensures
        portable(relative@) && set_portable(context.include_matcher) && set_portable(
            context.exclude_matcher,
        ) ==> r == wanted(
            patterns_of(context.include_matcher),
            patterns_of(context.exclude_matcher),
            relative@,
        ),
{
    is_wanted(&context.include_matcher, &context.exclude_matcher, relative)
}

/// The paths below the root whose changes matter.
pub open spec fn followed(
    root: Seq<char>,
    included: Option<Seq<Seq<char>>>,
    excluded: Option<Seq<Seq<char>>>,
    paths: Seq<Seq<char>>,
) -> Seq<Seq<char>>
    decreases paths.len(),
{
    if paths.len() == 0 {
        Seq::empty()
    } else {
        let before = followed(root, included, excluded, paths.drop_last());
        match relative_of(root, paths.last()) {
            Some(path) => if wanted(included, excluded, path) {
                before.push(path)
            } else {
                before
            },
            None => before,
        }
    }
}

/// One of the paths is reported by this path below the root.
pub open spec fn comes_from(root: Seq<char>, paths: Seq<Seq<char>>, path: Seq<char>) -> bool {
    exists|k: int| 0 <= k < paths.len() && relative_of(root, #[trigger] paths[k]) == Some(path)
}

/// The paths below the root whose changes matter.
pub fn paths_to_follow(context: &WatchContext, paths: &Vec<String>) -> (r: Vec<String>)
    ensures
        set_portable(context.include_matcher) && set_portable(context.exclude_matcher) ==> texts(
            r@,
        ) == followed(
            context.absolute_root@,
            patterns_of(context.include_matcher),
            patterns_of(context.exclude_matcher),
            texts(paths@),
        ),
        forall|i: int|
            0 <= i < r@.len() ==> comes_from(
                context.absolute_root@,
                texts(paths@),
                (#[trigger] r@[i])@,
            ),
{
    let mut out: Vec<String> = Vec::new();
    let ghost all = texts(paths@);
    let mut i: usize = 0;
    assert(all.take(0) =~= Seq::<Seq<char>>::empty());
    assert(texts(out@) =~= Seq::<Seq<char>>::empty());
    while i < paths.len()
        invariant
            i <= paths@.len(),
            all == texts(paths@),
            set_portable(context.include_matcher) && set_portable(context.exclude_matcher)
                ==> texts(out@) == followed(
                context.absolute_root@,
                patterns_of(context.include_matcher),
                patterns_of(context.exclude_matcher),
                all.take(i as int),
            ),
            forall|j: int|
                0 <= j < out@.len() ==> comes_from(
                    context.absolute_root@,
                    all,
                    (#[trigger] out@[j])@,
                ),
        decreases paths.len() - i,
    {
        proof {
            let next = all.take(i + 1);
            assert(next.drop_last() =~= all.take(i as int));
            assert(next.last() == paths@[i as int]@);
        }
        if let Some(path) = normalize_relative_path(
            context.absolute_root.as_str(),
            paths[i].as_str(),
        ) {
            if should_track(context, path.as_str()) {
                assert(comes_from(context.absolute_root@, all, path@)) by {
                    assert(relative_of(context.absolute_root@, all[i as int]) == Some(path@));
                }
                push_text(&mut out, path);
            }
        }
        i += 1;
    }
    assert(all.take(i as int) =~= all);
    out
}

// ---------------------------------------------------------------------------
// What is to be ingested
// ---------------------------------------------------------------------------

/// The text is in the list.
pub open spec fn listed(list: Seq<String>, path: Seq<char>) -> bool {
    texts(list).contains(path)
}

/// No text is in the list twice.
pub open spec fn listed_once(list: Seq<String>) -> bool {
    forall|i: int, j: int|
        0 <= i < j < list.len() ==> (#[trigger] list[i])@ != (#[trigger] list[j])@
}

/// The changes that wait, and whether an ingestion runs.
#[derive(Debug)]
pub struct WatchState {
    pub changed_paths: Vec<String>,
    pub removed_paths: Vec<String>,
    pub ingest_in_progress: bool,
    pub rerun_requested: bool,
}

proof fn lemma_listed(list: Seq<String>, path: Seq<char>)
    ensures
        listed(list, path) <==> exists|i: int| 0 <= i < list.len() && (#[trigger] list[i])@ == path,
{
    if listed(list, path) {
        let i = choose|i: int| 0 <= i < texts(list).len() && texts(list)[i] == path;
        assert(list[i]@ == path);
    }
    if exists|i: int| 0 <= i < list.len() && (#[trigger] list[i])@ == path {
        let i = choose|i: int| 0 <= i < list.len() && (#[trigger] list[i])@ == path;
        assert(texts(list)[i] == path);
    }
}

/// Puts a text into the list, unless it is there.
fn insert_path(list: &mut Vec<String>, path: &String)
    requires
        listed_once(old(list)@),
    ensures
        listed_once(final(list)@),
        forall|p: Seq<char>| #[trigger]
            listed(final(list)@, p) <==> listed(old(list)@, p) || p == path@,
{
    let ghost before = list@;
    if contains_string(list, path.as_str()) {
        assert(listed(before, path@)) by {
            lemma_listed(before, path@);
        }
        return;
    }
    assert(!listed(before, path@)) by {
        lemma_listed(before, path@);
    }
    let copy = path.clone();
    list.push(copy);
    proof {
        assert forall|i: int, j: int| 0 <= i < j < list@.len() implies (#[trigger] list@[i])@ != (
        #[trigger] list@[j])@ by {
            if j == before.len() {
                if before[i]@ == path@ {
                    lemma_listed(before, path@);
                }
            } else {
                assert(before[i]@ != before[j]@);
            }
        }
        assert forall|p: Seq<char>| #[trigger] listed(list@, p) <==> listed(before, p) || p
            == path@ by {
            lemma_listed(list@, p);
            lemma_listed(before, p);
            assert(list@[before.len() as int]@ == path@);
            if listed(before, p) {
                let i = choose|i: int| 0 <= i < before.len() && (#[trigger] before[i])@ == p;
                assert(list@[i]@ == p);
            }
            if listed(list@, p) && p != path@ {
                let i = choose|i: int| 0 <= i < list@.len() && (#[trigger] list@[i])@ == p;
                assert(before[i]@ == p);
            }
        }
    }
}

/// Takes a text out of the list.
fn remove_path(list: &mut Vec<String>, path: &String)
    requires
        listed_once(old(list)@),
    ensures
        listed_once(final(list)@),
        forall|p: Seq<char>| #[trigger]
            listed(final(list)@, p) <==> listed(old(list)@, p) && p != path@,
{
    let ghost before = list@;
    let mut i: usize = 0;
    while i < list.len()
        invariant
            i <= list@.len(),
            list@ == before,
            before == old(list)@,
            listed_once(before),
            forall|k: int| 0 <= k < i ==> (#[trigger] before[k])@ != path@,
        decreases list.len() - i,
    {
        if same_text(list[i].as_str(), path.as_str()) {
            let taken = list.remove(i);
            proof {
                let after = list@;
                assert(after =~= before.remove(i as int));
                assert forall|a: int, b: int| 0 <= a < b < after.len() implies (
                #[trigger] after[a])@ != (#[trigger] after[b])@ by {
                    let x = if a < i {
                        a
                    } else {
                        a + 1
                    };
                    let y = if b < i {
                        b
                    } else {
                        b + 1
                    };
                    assert(before[x]@ != before[y]@);
                }
                assert forall|p: Seq<char>| #[trigger] listed(after, p) <==> listed(before, p) && p
                    != path@ by {
                    lemma_listed(after, p);
                    lemma_listed(before, p);
                    if listed(after, p) {
                        let a = choose|a: int| 0 <= a < after.len() && (#[trigger] after[a])@ == p;
                        let x = if a < i {
                            a
                        } else {
                            a + 1
                        };
                        assert(before[x]@ == p);
                        if x < i {
                            assert(before[x]@ != before[i as int]@);
                        } else {
                            assert(before[i as int]@ != before[x]@);
                        }
                    }
                    if listed(before, p) && p != path@ {
                        let x = choose|x: int| 0 <= x < before.len() && (#[trigger] before[x])@ == p;
                        let a = if x < i {
                            x
                        } else {
                            x - 1
                        };
                        assert(after[a]@ == p);
                    }
                }
            }
            return;
        }
        i += 1;
    }
    proof {
        assert forall|p: Seq<char>| #[trigger] listed(list@, p) <==> listed(before, p) && p
            != path@ by {
            lemma_listed(before, p);
            if listed(before, p) {
                let x = choose|x: int| 0 <= x < before.len() && (#[trigger] before[x])@ == p;
            }
        }
    }
}

impl WatchState {
    /// No path is listed twice, and none is both changed and removed.
    pub open spec fn valid(&self) -> bool {
        &&& listed_once(self.changed_paths@)
        &&& listed_once(self.removed_paths@)
        &&& forall|p: Seq<char>|
            !(#[trigger] listed(self.changed_paths@, p) && listed(self.removed_paths@, p))
    }

    /// The path waits to be ingested.
    pub open spec fn waits(&self, p: Seq<char>) -> bool {
        listed(self.changed_paths@, p) || listed(self.removed_paths@, p)
    }

    /// Nothing has changed yet.
    pub fn new() -> (r: Self)
        ensures
            r.valid(),
            r.changed_paths@.len() == 0,
            r.removed_paths@.len() == 0,
            !r.ingest_in_progress,
            !r.rerun_requested,
    {
        let r = WatchState {
            changed_paths: Vec::new(),
            removed_paths: Vec::new(),
            ingest_in_progress: false,
            rerun_requested: false,
        };
        assert forall|p: Seq<char>|
            !(#[trigger] listed(r.changed_paths@, p) && listed(r.removed_paths@, p)) by {
            lemma_listed(r.changed_paths@, p);
        }
        r
    }

    /// Takes in that files were removed, or else that they changed. It tells whether there
    /// is anything to ingest.
    pub fn record(&mut self, removal: bool, paths: &Vec<String>) -> (r: bool)
        requires
            old(self).valid(),
        ensures
            final(self).valid(),
            final(self).ingest_in_progress == old(self).ingest_in_progress,
            final(self).rerun_requested == old(self).rerun_requested,
            forall|p: Seq<char>| #[trigger]
                listed(final(self).removed_paths@, p) <==> if removal {
                    listed(old(self).removed_paths@, p) || listed(paths@, p)
                } else {
                    listed(old(self).removed_paths@, p) && !listed(paths@, p)
                },
            forall|p: Seq<char>| #[trigger]
                listed(final(self).changed_paths@, p) <==> if removal {
                    listed(old(self).changed_paths@, p) && !listed(paths@, p)
                } else {
                    listed(old(self).changed_paths@, p) || listed(paths@, p)
                },
            forall|p: Seq<char>| #[trigger]
                final(self).waits(p) <==> old(self).waits(p) || listed(paths@, p),
            r == (final(self).changed_paths@.len() > 0 || final(self).removed_paths@.len() > 0),
    {
        let mut i: usize = 0;
        proof {
            assert forall|p: Seq<char>| !#[trigger] listed(paths@.take(0), p) by {
                lemma_listed(paths@.take(0), p);
            }
        }
        while i < paths.len()
            invariant
                i <= paths@.len(),
                self.valid(),
                self.ingest_in_progress == old(self).ingest_in_progress,
                self.rerun_requested == old(self).rerun_requested,
                forall|p: Seq<char>| #[trigger]
                    listed(self.removed_paths@, p) <==> if removal {
                        listed(old(self).removed_paths@, p) || listed(paths@.take(i as int), p)
                    } else {
                        listed(old(self).removed_paths@, p) && !listed(paths@.take(i as int), p)
                    },
                forall|p: Seq<char>| #[trigger]
                    listed(self.changed_paths@, p) <==> if removal {
                        listed(old(self).changed_paths@, p) && !listed(paths@.take(i as int), p)
                    } else {
                        listed(old(self).changed_paths@, p) || listed(paths@.take(i as int), p)
                    },
            decreases paths.len() - i,
        {
            proof {
                let now = paths@.take(i as int);
                let next = paths@.take(i + 1);
                assert forall|p: Seq<char>| #[trigger] listed(next, p) <==> listed(now, p) || p
                    == paths@[i as int]@ by {
                    lemma_listed(next, p);
                    lemma_listed(now, p);
                    assert(next[i as int] == paths@[i as int]);
                    if listed(now, p) {
                        let k = choose|k: int| 0 <= k < now.len() && (#[trigger] now[k])@ == p;
                        assert(next[k]@ == p);
                    }
                    if listed(next, p) && p != paths@[i as int]@ {
                        let k = choose|k: int| 0 <= k < next.len() && (#[trigger] next[k])@ == p;
                        assert(now[k]@ == p);
                    }
                }
            }
            if removal {
                remove_path(&mut self.changed_paths, &paths[i]);
                insert_path(&mut self.removed_paths, &paths[i]);
            } else {
                remove_path(&mut self.removed_paths, &paths[i]);
                insert_path(&mut self.changed_paths, &paths[i]);
            }
            i += 1;
        }
        assert(paths@.take(i as int) =~= paths@);
        self.changed_paths.len() > 0 || self.removed_paths.len() > 0
    }

    /// Starts an ingestion, and hands out every path that waits. Where one runs already,
    /// another is asked for instead.
    pub fn begin(&mut self) -> (r: Option<Vec<String>>)
        requires
            old(self).valid(),
        ensures
            final(self).valid(),
            final(self).ingest_in_progress,
            match r {
                Some(paths) => {
                    &&& !old(self).ingest_in_progress
                    &&& !final(self).rerun_requested
                    &&& final(self).changed_paths@.len() == 0
                    &&& final(self).removed_paths@.len() == 0
                    &&& listed_once(paths@)
                    &&& forall|p: Seq<char>| #[trigger] listed(paths@, p) <==> old(self).waits(p)
                },
                None => {
                    &&& old(self).ingest_in_progress
                    &&& final(self).rerun_requested
                    &&& final(self).changed_paths == old(self).changed_paths
                    &&& final(self).removed_paths == old(self).removed_paths
                },
            },
    {
        if self.ingest_in_progress {
            self.rerun_requested = true;
            return None;
        }
        self.ingest_in_progress = true;
        self.rerun_requested = false;
        let ghost changed = self.changed_paths@;
        let ghost removed = self.removed_paths@;
        let mut paths: Vec<String> = Vec::new();
        std::mem::swap(&mut paths, &mut self.changed_paths);
        let mut gone: Vec<String> = Vec::new();
        std::mem::swap(&mut gone, &mut self.removed_paths);
        let mut i: usize = 0;
        proof {
            assert forall|p: Seq<char>| !#[trigger] listed(removed.take(0), p) by {
                lemma_listed(removed.take(0), p);
            }
        }
        while i < gone.len()
            invariant
                i <= gone@.len(),
                gone@ == removed,
                listed_once(paths@),
                forall|p: Seq<char>| #[trigger]
                    listed(paths@, p) <==> listed(changed, p) || listed(removed.take(i as int), p),
            decreases gone.len() - i,
        {
            proof {
                let now = removed.take(i as int);
                let next = removed.take(i + 1);
                assert forall|p: Seq<char>| #[trigger] listed(next, p) <==> listed(now, p) || p
                    == removed[i as int]@ by {
                    lemma_listed(next, p);
                    lemma_listed(now, p);
                    assert(next[i as int] == removed[i as int]);
                    if listed(now, p) {
                        let k = choose|k: int| 0 <= k < now.len() && (#[trigger] now[k])@ == p;
                        assert(next[k]@ == p);
                    }
                    if listed(next, p) && p != removed[i as int]@ {
                        let k = choose|k: int| 0 <= k < next.len() && (#[trigger] next[k])@ == p;
                        assert(now[k]@ == p);
                    }
                }
            }
            insert_path(&mut paths, &gone[i]);
            i += 1;
        }
        proof {
            assert(removed.take(i as int) =~= removed);
            assert forall|p: Seq<char>|
                !(#[trigger] listed(self.changed_paths@, p) && listed(self.removed_paths@, p)) by {
                lemma_listed(self.changed_paths@, p);
            }
        }
        Some(paths)
    }

    /// Ends an ingestion, and tells whether another was asked for meanwhile.
    pub fn finish(&mut self) -> (r: bool)
        requires
            old(self).valid(),
        ensures
            final(self).valid(),
            !final(self).ingest_in_progress,
            !final(self).rerun_requested,
            final(self).changed_paths == old(self).changed_paths,
            final(self).removed_paths == old(self).removed_paths,
            r == old(self).rerun_requested,
    {
        self.ingest_in_progress = false;
        let again = self.rerun_requested;
        self.rerun_requested = false;
        again
    }
}

/// The ingestion of the paths that changed; of everything where none is named.
pub fn watch_ingest_params(context: &WatchContext, paths: Vec<String>) -> (r: IngestParams)
    ensures
        r.root == Some(context.absolute_root),
        r.included is Some && texts(r.included->0@) == texts(context.include_patterns@),
        r.excluded is Some && texts(r.excluded->0@) == texts(context.exclude_patterns@),
        r.database_name == Some(context.database_name),
        r.max_file_size_bytes is None,
        r.store_file_content is None,
        r.paths == (if paths@.len() == 0 {
            None
        } else {
            Some(paths)
        }),
        r.auto_evict is None,
        r.max_database_size_bytes is None,
        r.embedding is None,
{
    IngestParams {
        root: Some(context.absolute_root.clone()),
        included: Some(clone_texts(&context.include_patterns)),
        excluded: Some(clone_texts(&context.exclude_patterns)),
        database_name: Some(context.database_name.clone()),
        max_file_size_bytes: None,
        store_file_content: None,
        paths: if paths.len() == 0 {
            None
        } else {
            Some(paths)
        },
        auto_evict: None,
        max_database_size_bytes: None,
        embedding: None,
    }
}

/// The database and what belongs to it are never watched, nor what is left out of an
/// index.
pub proof fn law_unwatched(database: Seq<char>)
    ensures
        unwatched(database).contains("**/"@ + database),
        unwatched(database).contains("**/"@ + database + "-wal"@),
        unwatched(database).contains("**/"@ + database + "-shm"@),
        default_exclude_globs().is_prefix_of(unwatched(database)),
        unwatched(database).len() == default_exclude_globs().len() + 3,
{
    let all = unwatched(database);
    let n = default_exclude_globs().len() as int;
    assert(all[n] == "**/"@ + database);
    assert(all[n + 1] == "**/"@ + database + "-wal"@);
    assert(all[n + 2] == "**/"@ + database + "-shm"@);
    assert(default_exclude_globs() =~= all.subrange(0, n));
}

/// A change of a file below the root is reported by the path of the file below the root.
pub proof fn law_relative(root: Seq<char>, path: Seq<char>)
    requires
        root.len() > 0,
        root[0] == '/',
        root.last() != '/',
        path.len() > 0,
        !path.contains('\\'),
        crate::paths::is_real(crate::pieces::split_on(path, '/')[0]),
        crate::paths::is_real(crate::pieces::split_on(path, '/').last()),
    ensures
        relative_of(root, root + seq!['/'] + path) == Some(path),
        relative_of(root, root) is None,
{
    crate::paths::law_below_again(root, path);
    crate::paths::law_path_in(root, path);
    crate::paths::law_path_in(root, root + seq!['/'] + path);
    crate::paths::law_path_in(root, root);
    assert((root + seq!['/'] + path)[0] == '/');
    assert(!(path[0] == '/')) by {
        if path[0] == '/' {
            crate::pieces::lemma_position_of(path, '/');
            assert(crate::pieces::position_of(path, '/') == 0);
            assert(crate::pieces::split_on(path, '/')[0] =~= Seq::<char>::empty());
        }
    }
    assert(replaced_char(path, '\\', '/') =~= path) by {
        assert forall|i: int| 0 <= i < path.len() implies path[i] != '\\' by {
            if path[i] == '\\' {
                assert(path.contains('\\'));
            }
        }
    }
}

/// Of changed paths those are followed that lie below the root and are wanted, all of them
/// and in their order.
pub proof fn law_followed(
    root: Seq<char>,
    included: Option<Seq<Seq<char>>>,
    excluded: Option<Seq<Seq<char>>>,
    front: Seq<Seq<char>>,
    path: Seq<char>,
    back: Seq<Seq<char>>,
)
    ensures
        followed(root, included, excluded, front + seq![path] + back) == followed(
            root,
            included,
            excluded,
            front,
        ) + (match relative_of(root, path) {
            Some(p) => if wanted(included, excluded, p) {
                seq![p]
            } else {
                Seq::empty()
            },
            None => Seq::empty(),
        }) + followed(root, included, excluded, back),
        followed(root, included, excluded, Seq::empty()).len() == 0,
    decreases back.len(),
{
    let all = front + seq![path] + back;
    let kept = match relative_of(root, path) {
        Some(p) => if wanted(included, excluded, p) {
            seq![p]
        } else {
            Seq::empty()
        },
        None => Seq::empty(),
    };
    if back.len() == 0 {
        assert(all.drop_last() =~= front);
        assert(all.last() == path);
        assert(followed(root, included, excluded, all) =~= followed(root, included, excluded, front)
            + kept + followed(root, included, excluded, back));
    } else {
        law_followed(root, included, excluded, front, path, back.drop_last());
        assert(all.drop_last() =~= front + seq![path] + back.drop_last());
        assert(all.last() == back.last());
        assert(followed(root, included, excluded, all) =~= followed(root, included, excluded, front)
            + kept + followed(root, included, excluded, back));
    }
}

/// An ingestion after changes takes the paths that changed, or everything where none is named.
pub proof fn law_watched_ingestion(
    context: &WatchContext,
    paths: Vec<String>,
    params: IngestParams,
)
    requires
        call_ensures(watch_ingest_params, (context, paths), params),
    ensures
        params.paths is None <==> paths@.len() == 0,
        params.paths matches Some(list) ==> list == paths,
        params.root == Some(context.absolute_root),
        params.database_name == Some(context.database_name),
{
}

} // verus!
