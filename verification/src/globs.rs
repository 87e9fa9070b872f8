//! Sets of glob patterns, through the `globset` crate.

use vstd::prelude::*;
use crate::pieces::{push_text, texts};

verus! {

/// A glob pattern of the `globset` crate.
#[verifier::external_type_specification]
#[verifier::external_body]
pub struct ExGlob(globset::Glob);

/// A set of glob patterns of the `globset` crate.
#[verifier::external_type_specification]
#[verifier::external_body]
pub struct ExGlobSet(globset::GlobSet);

/// What collects the patterns of a set.
#[verifier::external_type_specification]
#[verifier::external_body]
pub struct ExGlobSetBuilder(globset::GlobSetBuilder);

/// The text that a glob was made from.
pub uninterp spec fn glob_text(glob: globset::Glob) -> Seq<char>;

/// The patterns that a set holds.
pub uninterp spec fn set_patterns(set: globset::GlobSet) -> Seq<Seq<char>>;

/// The patterns collected so far.
pub uninterp spec fn collected_patterns(builder: globset::GlobSetBuilder) -> Seq<Seq<char>>;

/// The text is a glob pattern.
pub uninterp spec fn glob_parses(pattern: Seq<char>) -> bool;

/// The pattern matches the path.
pub uninterp spec fn glob_matches(pattern: Seq<char>, path: Seq<char>) -> bool;

/// The text has no backslash. Systems differ in whether a backslash escapes what follows
/// it or separates the parts of a path.
pub open spec fn portable(text: Seq<char>) -> bool {
    !text.contains('\\')
}

/// One of the patterns matches the path.
pub open spec fn any_matches(patterns: Seq<Seq<char>>, path: Seq<char>) -> bool {
    exists|i: int| 0 <= i < patterns.len() && glob_matches(#[trigger] patterns[i], path)
}

/// None of the patterns has a backslash.
pub open spec fn all_portable(patterns: Seq<Seq<char>>) -> bool {
    forall|i: int| 0 <= i < patterns.len() ==> portable(#[trigger] patterns[i])
}

/// Every one of the patterns that has no backslash is a glob pattern.
pub open spec fn all_parse(patterns: Seq<Seq<char>>) -> bool {
    forall|i: int|
        0 <= i < patterns.len() && portable(#[trigger] patterns[i]) ==> glob_parses(patterns[i])
}

/// Calls `Glob::new`. The glob keeps the text that it was made from. Which texts with a
/// backslash it refuses is not stated, as systems differ in that.
#[verifier::external_body]
pub(crate) fn parse_glob(pattern: &str) -> (r: Result<globset::Glob, String>)
    ensures
        match r {
            Ok(glob) => glob_text(glob) == pattern@,
            Err(_) => true,
        },
        portable(pattern@) ==> r is Ok == glob_parses(pattern@),
{
    globset::Glob::new(pattern).map_err(|error| error.to_string())
}

/// Calls `GlobSetBuilder::new`: nothing is collected yet.
#[verifier::external_body]
pub(crate) fn new_builder() -> (r: globset::GlobSetBuilder)
    ensures
        collected_patterns(r) == Seq::<Seq<char>>::empty(),
{
    globset::GlobSetBuilder::new()
}

/// Calls `GlobSetBuilder::add`: the glob is collected behind the others.
#[verifier::external_body]
pub(crate) fn add_glob(builder: &mut globset::GlobSetBuilder, glob: globset::Glob)
    ensures
        collected_patterns(*final(builder)) == collected_patterns(*old(builder)).push(
            glob_text(glob),
        ),
{
    builder.add(glob);
}

/// Calls `GlobSetBuilder::build`: the set holds what was collected. It fails where the
/// patterns together are too large to compile; which are is not stated, as it depends on
/// the machine.
#[verifier::external_body]
pub(crate) fn build_set(builder: &globset::GlobSetBuilder) -> (r: Result<globset::GlobSet, String>)
    ensures
        match r {
            Ok(set) => set_patterns(set) == collected_patterns(*builder),
            Err(_) => true,
        },
{
    builder.build().map_err(|error| error.to_string())
}

/// Calls `GlobSet::is_match`: whether any of the patterns matches. Stated for texts
/// without a backslash, as systems differ in what that means.
#[verifier::external_body]
fn set_matches(set: &globset::GlobSet, path: &str) -> (r: bool)
    ensures
        set_patterns(*set).len() == 0 ==> !r,
        portable(path@) && all_portable(set_patterns(*set)) ==> (r == (exists|i: int|
            0 <= i && i < set_patterns(*set).len() && glob_matches(
                #[trigger] set_patterns(*set)[i],
                path@,
            ))),
{
    set.is_match(path)
}

/// Why patterns make no set.
#[derive(Debug, Clone)]
pub enum GlobProblem {
    /// One of them is no glob pattern.
    Pattern { pattern: String, message: String },
    /// Together they make no set.
    Whole { message: String },
}

impl GlobProblem {
    /// The problem in words.
    pub fn message(&self) -> (r: String)
        ensures
            r@ == match *self {
                GlobProblem::Pattern { pattern, message } => "invalid glob pattern '"@ + pattern@
                    + "': "@ + message@,
                GlobProblem::Whole { message } => "failed to compile glob set: "@ + message@,
            },
    {
        match self {
            GlobProblem::Pattern { pattern, message } => {
                let mut out = "invalid glob pattern '".to_owned();
                out.append(pattern.as_str());
                out.append("': ");
                out.append(message.as_str());
                out
            },
            GlobProblem::Whole { message } => {
                let mut out = "failed to compile glob set: ".to_owned();
                out.append(message.as_str());
                out
            },
        }
    }
}

/// The set that the patterns make; none where there are no patterns. The first text that
/// is no glob pattern is reported.
pub fn compile_globs(patterns: &Vec<String>) -> (r: Result<Option<globset::GlobSet>, GlobProblem>)
    ensures
        match r {
            Ok(None) => patterns@.len() == 0,
            Ok(Some(set)) => {
                &&& patterns@.len() > 0
                &&& set_patterns(set) == texts(patterns@)
                &&& forall|i: int|
                    0 <= i < patterns@.len() && portable(#[trigger] patterns@[i]@) ==> glob_parses(
                        patterns@[i]@,
                    )
            },
            Err(GlobProblem::Pattern { pattern, message }) => exists|k: int|
                {
                    &&& 0 <= k < patterns@.len()
                    &&& pattern@ == (#[trigger] patterns@[k])@
                    &&& portable(pattern@) ==> !glob_parses(pattern@)
                    &&& forall|i: int|
                        0 <= i < k && portable(#[trigger] patterns@[i]@) ==> glob_parses(
                            patterns@[i]@,
                        )
                },
            Err(GlobProblem::Whole { message }) => {
                &&& patterns@.len() > 0
                &&& forall|i: int|
                    0 <= i < patterns@.len() && portable(#[trigger] patterns@[i]@) ==> glob_parses(
                        patterns@[i]@,
                    )
            },
        },
{
    if patterns.len() == 0 {
        return Ok(None);
    }
    let mut builder = new_builder();
    let mut i: usize = 0;
    assert(texts(patterns@).take(0) =~= Seq::<Seq<char>>::empty());
    while i < patterns.len()
        invariant
            i <= patterns.len(),
            collected_patterns(builder) == texts(patterns@).take(i as int),
            forall|j: int|
                0 <= j < i && portable(#[trigger] patterns@[j]@) ==> glob_parses(patterns@[j]@),
        decreases patterns.len() - i,
    {
        match parse_glob(patterns[i].as_str()) {
            Ok(glob) => {
                add_glob(&mut builder, glob);
            },
            Err(message) => {
                assert(patterns@[i as int]@ == patterns@[i as int]@);
                return Err(GlobProblem::Pattern { pattern: patterns[i].clone(), message });
            },
        }
        assert(texts(patterns@).take(i + 1) =~= texts(patterns@).take(i as int).push(
            patterns@[i as int]@,
        ));
        i += 1;
    }
    assert(texts(patterns@).take(i as int) =~= texts(patterns@));
    match build_set(&builder) {
        Ok(set) => Ok(Some(set)),
        Err(message) => Err(GlobProblem::Whole { message }),
    }
}

/// The patterns that a compiled set stands for; none where there is no set.
pub open spec fn patterns_of(set: Option<globset::GlobSet>) -> Option<Seq<Seq<char>>> {
    match set {
        Some(s) => Some(set_patterns(s)),
        None => None,
    }
}

/// A path is wanted: it matches a pattern of the first set and none of the second. Where
/// there is no first set every path matches, where there is no second set none does.
pub open spec fn wanted(
    included: Option<Seq<Seq<char>>>,
    excluded: Option<Seq<Seq<char>>>,
    path: Seq<char>,
) -> bool {
    &&& match included {
        Some(patterns) => any_matches(patterns, path),
        None => true,
    }
    &&& match excluded {
        Some(patterns) => !any_matches(patterns, path),
        None => true,
    }
}

/// None of the patterns of the set has a backslash.
pub open spec fn set_portable(set: Option<globset::GlobSet>) -> bool {
    match set {
        Some(s) => all_portable(set_patterns(s)),
        None => true,
    }
}

/// Whether a path is wanted.
pub fn is_wanted(
    included: &Option<globset::GlobSet>,
    excluded: &Option<globset::GlobSet>,
    path: &str,
) -> (r: bool)
    ensures
        included is None && excluded is None ==> r,
        portable(path@) && set_portable(*included) && set_portable(*excluded) ==> r == wanted(
            patterns_of(*included),
            patterns_of(*excluded),
            path@,
        ),
{
    let included_ok = match included {
        Some(set) => set_matches(set, path),
        None => true,
    };
    if !included_ok {
        return false;
    }
    match excluded {
        Some(set) => !set_matches(set, path),
        None => true,
    }
}

/// The patterns of what is indexed where a request names none.
pub open spec fn default_include_globs() -> Seq<Seq<char>> {
    seq!["**/*"@]
}

/// The patterns of what is left out where a request names none.
pub open spec fn default_exclude_globs() -> Seq<Seq<char>> {
    seq![
        "**/.git/**"@,
        "**/.svn/**"@,
        "**/.hg/**"@,
        "**/.mcp-index.sqlite"@,
        "**/node_modules/**"@,
        "**/vendor/**"@,
        "**/dist/**"@,
        "**/build/**"@,
    ]
}

/// The patterns of what is indexed where a request names none.
pub fn included_by_default() -> (r: Vec<String>)
    ensures
        texts(r@) == default_include_globs(),
{
    let mut out: Vec<String> = Vec::new();
    push_text(&mut out, "**/*".to_owned());
    assert(texts(out@) =~= default_include_globs());
    out
}

/// The patterns of what is left out where a request names none.
pub fn excluded_by_default() -> (r: Vec<String>)
    ensures
        texts(r@) == default_exclude_globs(),
{
    let mut out: Vec<String> = Vec::new();
    push_text(&mut out, "**/.git/**".to_owned());
    push_text(&mut out, "**/.svn/**".to_owned());
    push_text(&mut out, "**/.hg/**".to_owned());
    push_text(&mut out, "**/.mcp-index.sqlite".to_owned());
    push_text(&mut out, "**/node_modules/**".to_owned());
    push_text(&mut out, "**/vendor/**".to_owned());
    push_text(&mut out, "**/dist/**".to_owned());
    push_text(&mut out, "**/build/**".to_owned());
    assert(texts(out@) =~= default_exclude_globs());
    out
}

/// A path is wanted exactly where nothing of what is left out matches it and something of
/// what is asked for does, or nothing in particular is asked for.
pub proof fn law_wanted(
    included: Option<Seq<Seq<char>>>,
    excluded: Option<Seq<Seq<char>>>,
    path: Seq<char>,
    i: int,
)
    ensures
        wanted(None, None, path),
        excluded matches Some(patterns) ==> 0 <= i < patterns.len() && glob_matches(
            patterns[i],
            path,
        ) ==> !wanted(included, excluded, path),
        included matches Some(patterns) ==> (forall|k: int|
            0 <= k < patterns.len() ==> !glob_matches(#[trigger] patterns[k], path)) ==> !wanted(
            included,
            excluded,
            path,
        ),
        included matches Some(patterns) ==> 0 <= i < patterns.len() && glob_matches(
            patterns[i],
            path,
        ) ==> wanted(included, None, path),
        excluded matches Some(patterns) ==> (forall|k: int|
            0 <= k < patterns.len() ==> !glob_matches(#[trigger] patterns[k], path)) ==> wanted(
            None,
            excluded,
            path,
        ),
        wanted(included, excluded, path) <==> wanted(included, None, path) && wanted(
            None,
            excluded,
            path,
        ),
{
}

/// Where a request names no patterns, everything is asked for but what version control,
/// package managers and builds keep, and the index itself.
pub proof fn law_default_globs()
    ensures
        default_include_globs().contains("**/*"@),
        default_exclude_globs().contains("**/.git/**"@),
        default_exclude_globs().contains("**/.svn/**"@),
        default_exclude_globs().contains("**/.hg/**"@),
        default_exclude_globs().contains("**/.mcp-index.sqlite"@),
        default_exclude_globs().contains("**/node_modules/**"@),
        default_exclude_globs().contains("**/vendor/**"@),
        default_exclude_globs().contains("**/dist/**"@),
        default_exclude_globs().contains("**/build/**"@),
        default_exclude_globs().len() == 8,
        default_include_globs().len() == 1,
{
    let x = default_exclude_globs();
    assert(default_include_globs()[0] == "**/*"@);
    assert(x[0] == "**/.git/**"@ && x[1] == "**/.svn/**"@ && x[2] == "**/.hg/**"@ && x[3]
        == "**/.mcp-index.sqlite"@);
    assert(x[4] == "**/node_modules/**"@ && x[5] == "**/vendor/**"@ && x[6] == "**/dist/**"@ && x[7]
        == "**/build/**"@);
}

} // verus!
