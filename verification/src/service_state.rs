//! What the server remembers between calls: the caller's working directory, how much room
//! there is for context, and which chunks were delivered of late.

use vstd::prelude::*;
use crate::bundle::{ContextBundleParams, LineRange, SymbolSelector};
use crate::bundle_graph::text_of;
use crate::ingest::IngestParams;
use crate::json::{
    has_member, json_member, json_text_member, json_unsigned, json_value_member, member_value,
    text_member, unsigned_value,
};
use crate::search::{
    Classification, SearchResultCoordinate, SemanticSearchMatch, SummaryMode,
};
use crate::text::{same_text, trim_str, trimmed};

verus! {

/// The token budget of a bundle where the caller names none.
pub const DEFAULT_BUNDLE_BUDGET: usize = 2_000;

/// The least token budget of a bundle.
pub const MIN_BUNDLE_BUDGET: usize = 600;

/// How many snippets a bundle holds where the caller names no number.
pub const DEFAULT_SNIPPET_LIMIT_HINT: u32 = 2;

/// How many matches a search returns where the caller names no number.
pub const DEFAULT_SEARCH_LIMIT_HINT: u32 = 6;

/// How many neighbours a bundle holds where the caller names no number.
pub const DEFAULT_NEIGHBOR_LIMIT_HINT: u32 = 6;

/// How many delivered chunks are remembered.
pub const RECENT_HIT_HISTORY: usize = 32;

/// A chunk that was delivered.
#[derive(Debug, Clone)]
pub struct RecentHit {
    pub path: String,
    pub chunk_index: i32,
}

/// What the server remembers.
#[derive(Debug, Clone)]
pub struct EnvironmentSnapshot {
    pub cwd: Option<String>,
    pub bundle_budget_override: Option<usize>,
    pub remaining_context_tokens: Option<usize>,
    pub recent_hits: Vec<RecentHit>,
}

/// A search with the options that a caller may leave open.
#[derive(Debug, Clone)]
pub struct SemanticSearchRequest {
    pub root: Option<String>,
    pub query: String,
    pub database_name: Option<String>,
    pub limit: Option<u32>,
    pub model: Option<String>,
    pub language: Option<String>,
    pub path_prefix: Option<String>,
    pub path_contains: Option<String>,
    pub classification: Option<Classification>,
    pub summary_mode: Option<SummaryMode>,
    pub max_context_before: Option<u32>,
    pub max_context_after: Option<u32>,
}

/// A request to look code up.
#[derive(Debug, Clone)]
pub struct CodeLookupParams {
    pub root: Option<String>,
    pub database_name: Option<String>,
    pub mode: Option<String>,
    pub query: Option<String>,
    pub file: Option<String>,
    pub symbol: Option<SymbolSelector>,
    pub ranges: Option<Vec<LineRange>>,
    pub focus_line: Option<u32>,
    pub max_snippets: Option<u32>,
    pub max_neighbors: Option<u32>,
    pub budget_tokens: Option<u32>,
    pub limit: Option<u32>,
    pub model: Option<String>,
    pub language: Option<String>,
    pub path_prefix: Option<String>,
    pub path_contains: Option<String>,
    pub classification: Option<Classification>,
    pub summary_mode: Option<SummaryMode>,
    pub max_context_before: Option<u32>,
    pub max_context_after: Option<u32>,
}

// ---------------------------------------------------------------------------
// Budgets
// ---------------------------------------------------------------------------

/// The larger of two numbers.
pub open spec fn larger_of(a: int, b: int) -> int {
    if a >= b {
        a
    } else {
        b
    }
}

/// The smaller of two numbers.
pub open spec fn smaller_of(a: int, b: int) -> int {
    if a <= b {
        a
    } else {
        b
    }
}

/// The token budget of a bundle: what the caller set, but no more than three fifths of the
/// room that is left, and never less than the least.
pub open spec fn budget_of(override_tokens: Option<usize>, remaining: Option<usize>) -> int {
    let wanted = match override_tokens {
        Some(n) => n as int,
        None => DEFAULT_BUNDLE_BUDGET as int,
    };
    let bounded = match remaining {
        Some(left) => if left * 3 / 5 > 0 {
            smaller_of(wanted, larger_of(left * 3 / 5, MIN_BUNDLE_BUDGET as int))
        } else {
            wanted
        },
        None => wanted,
    };
    larger_of(bounded, MIN_BUNDLE_BUDGET as int)
}

impl EnvironmentSnapshot {
    /// Nothing is remembered yet.
    pub fn new() -> (r: Self)
        ensures
            r.cwd is None,
            r.bundle_budget_override is None,
            r.remaining_context_tokens is None,
            r.recent_hits@.len() == 0,
    {
        EnvironmentSnapshot {
            cwd: None,
            bundle_budget_override: None,
            remaining_context_tokens: None,
            recent_hits: Vec::new(),
        }
    }

    /// The token budget of a bundle.
    pub fn bundle_budget(&self) -> (r: usize)
        ensures
            r == budget_of(self.bundle_budget_override, self.remaining_context_tokens),
    {
        let mut budget: usize = match self.bundle_budget_override {
            Some(n) => n,
            None => DEFAULT_BUNDLE_BUDGET,
        };
        if let Some(left) = self.remaining_context_tokens {
            let safety: usize = (left as u128 * 3 / 5) as usize;
            if safety > 0 {
                let least: usize = if safety >= MIN_BUNDLE_BUDGET {
                    safety
                } else {
                    MIN_BUNDLE_BUDGET
                };
                if budget > least {
                    budget = least;
                }
            }
        }
        if budget >= MIN_BUNDLE_BUDGET {
            budget
        } else {
            MIN_BUNDLE_BUDGET
        }
    }

    /// The token budget of a bundle as it is sent.
    pub fn bundle_budget_hint(&self) -> (r: u32)
        ensures
            r == smaller_of(
                budget_of(self.bundle_budget_override, self.remaining_context_tokens),
                u32::MAX as int,
            ),
    {
        let budget: usize = self.bundle_budget();
        if budget <= u32::MAX as usize {
            budget as u32
        } else {
            u32::MAX
        }
    }
}

/// A budget is never less than the least, nor more than the largest of the least, the
/// wanted budget and the default.
pub proof fn law_budget_bounds(override_tokens: Option<usize>, remaining: Option<usize>)
    ensures
        budget_of(override_tokens, remaining) >= MIN_BUNDLE_BUDGET,
        override_tokens matches Some(n) && n >= MIN_BUNDLE_BUDGET ==> budget_of(
            override_tokens,
            remaining,
        ) <= override_tokens->0,
        remaining matches Some(left) && left * 3 / 5 >= MIN_BUNDLE_BUDGET ==> budget_of(
            override_tokens,
            remaining,
        ) <= remaining->0 * 3 / 5,
{
}

// ---------------------------------------------------------------------------
// What a call says of its surroundings
// ---------------------------------------------------------------------------

/// What a call says of its surroundings.
#[derive(Debug)]
pub struct EnvironmentReading {
    pub cwd: Option<String>,
    pub budget_tokens: Option<u64>,
    pub remaining_tokens: Option<u64>,
}

/// The part of a call's metadata that speaks of the surroundings, where it has one of its
/// own.
pub open spec fn environment_part(meta: Seq<char>) -> Option<Seq<char>> {
    if json_value_member(meta, "environment"@) is Some {
        json_value_member(meta, "environment"@)
    } else if json_value_member(meta, "environmentContext"@) is Some {
        json_value_member(meta, "environmentContext"@)
    } else {
        json_value_member(meta, "environment_context"@)
    }
}

/// The metadata itself speaks of the surroundings.
pub open spec fn speaks_of_environment(meta: Seq<char>) -> bool {
    json_member(meta, "cwd"@) || json_member(meta, "bundleBudgetTokens"@) || json_member(
        meta,
        "budgetTokens"@,
    ) || json_member(meta, "tokenUsage"@) || json_member(meta, "remainingContextTokens"@)
}

/// The text that speaks of the surroundings.
pub open spec fn environment_source(meta: Seq<char>) -> Option<Seq<char>> {
    if environment_part(meta) is Some {
        environment_part(meta)
    } else if speaks_of_environment(meta) {
        Some(meta)
    } else {
        None
    }
}

/// The number that a member holds.
pub open spec fn number_member(source: Seq<char>, key: Seq<char>) -> Option<u64> {
    match json_value_member(source, key) {
        Some(value) => json_unsigned(value),
        None => None,
    }
}

/// The budget that a call sets.
pub open spec fn budget_member(source: Seq<char>) -> Option<u64> {
    if json_value_member(source, "bundleBudgetTokens"@) is Some {
        number_member(source, "bundleBudgetTokens"@)
    } else {
        number_member(source, "budgetTokens"@)
    }
}

/// The room that a call says is left.
pub open spec fn remaining_member(source: Seq<char>) -> Option<u64> {
    if number_member(source, "remainingContextTokens"@) is Some {
        number_member(source, "remainingContextTokens"@)
    } else {
        match json_value_member(source, "tokenUsage"@) {
            Some(usage) => number_member(usage, "remainingContextTokens"@),
            None => None,
        }
    }
}

fn read_number(source: &str, key: &str) -> (r: Option<u64>)
    ensures
        r == number_member(source@, key@),
{
    match member_value(source, key) {
        Some(value) => unsigned_value(value.as_str()),
        None => None,
    }
}

/// What a call says of its surroundings; `None` where its metadata, a JSON object, does not
/// speak of them.
pub fn read_environment(meta: &str) -> (r: Option<EnvironmentReading>)
    ensures
        match r {
            Some(reading) => {
                &&& environment_source(meta@) is Some
                &&& text_of(reading.cwd) == json_text_member(
                    environment_source(meta@)->0,
                    "cwd"@,
                )
                &&& reading.budget_tokens == budget_member(environment_source(meta@)->0)
                &&& reading.remaining_tokens == remaining_member(environment_source(meta@)->0)
            },
            None => environment_source(meta@) is None,
        },
{
    let part = match member_value(meta, "environment") {
        Some(value) => Some(value),
        None => match member_value(meta, "environmentContext") {
            Some(value) => Some(value),
            None => member_value(meta, "environment_context"),
        },
    };
    let source = match part {
        Some(value) => value,
        None => {
            let speaks = has_member(meta, "cwd") || has_member(meta, "bundleBudgetTokens")
                || has_member(meta, "budgetTokens") || has_member(meta, "tokenUsage")
                || has_member(meta, "remainingContextTokens");
            if !speaks {
                return None;
            }
            meta.to_owned()
        },
    };
    let s = source.as_str();
    let cwd = text_member(s, "cwd");
    let budget_tokens = match member_value(s, "bundleBudgetTokens") {
        Some(value) => unsigned_value(value.as_str()),
        None => read_number(s, "budgetTokens"),
    };
    let remaining_tokens = match read_number(s, "remainingContextTokens") {
        Some(n) => Some(n),
        None => match member_value(s, "tokenUsage") {
            Some(usage) => read_number(usage.as_str(), "remainingContextTokens"),
            None => None,
        },
    };
    Some(EnvironmentReading { cwd, budget_tokens, remaining_tokens })
}

/// A number of tokens in the machine's size.
pub open spec fn machine_size(n: u64) -> usize {
    n as usize
}

impl EnvironmentSnapshot {
    /// Takes over what a call says of its surroundings; what it leaves out stays.
    pub fn apply_reading(&mut self, reading: EnvironmentReading)
        ensures
            text_of(final(self).cwd) == match reading.cwd {
                Some(cwd) => Some(trimmed(cwd@)),
                None => text_of(old(self).cwd),
            },
            final(self).bundle_budget_override == match reading.budget_tokens {
                Some(n) => Some(machine_size(n)),
                None => old(self).bundle_budget_override,
            },
            final(self).remaining_context_tokens == match reading.remaining_tokens {
                Some(n) => Some(machine_size(n)),
                None => old(self).remaining_context_tokens,
            },
            final(self).recent_hits == old(self).recent_hits,
    {
        if let Some(cwd) = reading.cwd {
            self.cwd = Some(trim_str(cwd.as_str()));
        }
        if let Some(n) = reading.budget_tokens {
            self.bundle_budget_override = Some(n as usize);
        }
        if let Some(n) = reading.remaining_tokens {
            self.remaining_context_tokens = Some(n as usize);
        }
    }

    /// Takes over what the metadata of a call, a JSON object, says of its surroundings.
    pub fn update_from_meta(&mut self, meta: &str)
        ensures
            match environment_source(meta@) {
                Some(source) => {
                    &&& text_of(final(self).cwd) == match json_text_member(source, "cwd"@) {
                        Some(cwd) => Some(trimmed(cwd)),
                        None => text_of(old(self).cwd),
                    }
                    &&& final(self).bundle_budget_override == match budget_member(source) {
                        Some(n) => Some(machine_size(n)),
                        None => old(self).bundle_budget_override,
                    }
                    &&& final(self).remaining_context_tokens == match remaining_member(source) {
                        Some(n) => Some(machine_size(n)),
                        None => old(self).remaining_context_tokens,
                    }
                    &&& final(self).recent_hits == old(self).recent_hits
                },
                None => *final(self) == *old(self),
            },
    {
        if let Some(reading) = read_environment(meta) {
            self.apply_reading(reading);
        }
    }
}

// ---------------------------------------------------------------------------
// Defaults
// ---------------------------------------------------------------------------

/// The value, or another where there is none.
pub open spec fn or_else<T>(value: Option<T>, otherwise: Option<T>) -> Option<T> {
    if value is Some {
        value
    } else {
        otherwise
    }
}

fn root_or(root: &mut Option<String>, cwd: &Option<String>)
    ensures
        *final(root) == or_else(*old(root), *cwd),
{
    if root.is_none() {
        if let Some(dir) = cwd {
            *root = Some(dir.clone());
        }
    }
}

impl EnvironmentSnapshot {
    /// Fills in the root of a request to take a workspace in.
    pub fn apply_ingest_defaults(&self, params: &mut IngestParams)
        ensures
            *final(params) == (IngestParams {
                root: or_else(old(params).root, self.cwd),
                ..*old(params)
            }),
    {
        root_or(&mut params.root, &self.cwd);
    }

    /// Fills in what a search leaves open.
    pub fn apply_semantic_defaults(&self, params: &mut SemanticSearchRequest)
        ensures
            *final(params) == (SemanticSearchRequest {
                root: or_else(old(params).root, self.cwd),
                limit: or_else(old(params).limit, Some(DEFAULT_SEARCH_LIMIT_HINT)),
                summary_mode: or_else(old(params).summary_mode, Some(SummaryMode::Brief)),
                max_context_before: or_else(old(params).max_context_before, Some(1)),
                max_context_after: or_else(old(params).max_context_after, Some(1)),
                ..*old(params)
            }),
    {
        root_or(&mut params.root, &self.cwd);
        if params.limit.is_none() {
            params.limit = Some(DEFAULT_SEARCH_LIMIT_HINT);
        }
        if params.summary_mode.is_none() {
            params.summary_mode = Some(SummaryMode::Brief);
        }
        if params.max_context_before.is_none() {
            params.max_context_before = Some(1);
        }
        if params.max_context_after.is_none() {
            params.max_context_after = Some(1);
        }
    }

    /// Fills in what a request for a bundle leaves open.
    pub fn apply_bundle_defaults(&self, params: &mut ContextBundleParams)
        ensures
            *final(params) == (ContextBundleParams {
                root: or_else(old(params).root, self.cwd),
                max_snippets: or_else(old(params).max_snippets, Some(DEFAULT_SNIPPET_LIMIT_HINT)),
                budget_tokens: or_else(
                    old(params).budget_tokens,
                    Some(
                        budget_of(
                            self.bundle_budget_override,
                            self.remaining_context_tokens,
                        ) as u32,
                    ),
                ),
                max_neighbors: or_else(
                    old(params).max_neighbors,
                    Some(DEFAULT_NEIGHBOR_LIMIT_HINT),
                ),
                ..*old(params)
            }),
    {
        root_or(&mut params.root, &self.cwd);
        if params.max_snippets.is_none() {
            params.max_snippets = Some(DEFAULT_SNIPPET_LIMIT_HINT);
        }
        if params.budget_tokens.is_none() {
            params.budget_tokens = Some(self.bundle_budget() as u32);
        }
        if params.max_neighbors.is_none() {
            params.max_neighbors = Some(DEFAULT_NEIGHBOR_LIMIT_HINT);
        }
    }

    /// Fills in what a request to look code up leaves open.
    pub fn apply_code_lookup_defaults(&self, params: &mut CodeLookupParams)
        ensures
            *final(params) == (CodeLookupParams {
                root: or_else(old(params).root, self.cwd),
                summary_mode: or_else(old(params).summary_mode, Some(SummaryMode::Brief)),
                max_context_before: or_else(old(params).max_context_before, Some(1)),
                max_context_after: or_else(old(params).max_context_after, Some(1)),
                ..*old(params)
            }),
    {
        root_or(&mut params.root, &self.cwd);
        if params.summary_mode.is_none() {
            params.summary_mode = Some(SummaryMode::Brief);
        }
        if params.max_context_before.is_none() {
            params.max_context_before = Some(1);
        }
        if params.max_context_after.is_none() {
            params.max_context_after = Some(1);
        }
    }
}

/// What a caller gave is never overridden by a default, and filling in twice changes
/// nothing more.
pub proof fn law_defaults_yield<T>(value: Option<T>, otherwise: Option<T>)
    ensures
        value is Some ==> or_else(value, otherwise) == value,
        or_else(or_else(value, otherwise), otherwise) == or_else(value, otherwise),
{
}

// ---------------------------------------------------------------------------
// Delivered chunks
// ---------------------------------------------------------------------------

/// The coordinates of delivered chunks.
pub open spec fn hit_keys(hits: Seq<RecentHit>) -> Seq<(Seq<char>, i32)> {
    Seq::new(hits.len(), |i: int| (hits[i].path@, hits[i].chunk_index))
}

/// The coordinates of matches.
pub open spec fn match_keys(results: Seq<SemanticSearchMatch>) -> Seq<(Seq<char>, i32)> {
    Seq::new(results.len(), |i: int| (results[i].path@, results[i].chunk_index))
}

/// The chunk at position `i` was not delivered before and does not occur earlier.
pub open spec fn is_fresh(
    seen: Seq<(Seq<char>, i32)>,
    keys: Seq<(Seq<char>, i32)>,
    i: int,
) -> bool {
    !seen.contains(keys[i]) && !keys.take(i).contains(keys[i])
}

/// The positions, among the first `n`, of chunks that are fresh.
pub open spec fn fresh_positions(
    seen: Seq<(Seq<char>, i32)>,
    keys: Seq<(Seq<char>, i32)>,
    n: int,
) -> Seq<int>
    decreases n,
{
    if n <= 0 {
        Seq::empty()
    } else if is_fresh(seen, keys, n - 1) {
        fresh_positions(seen, keys, n - 1).push(n - 1)
    } else {
        fresh_positions(seen, keys, n - 1)
    }
}

/// The coordinates at these positions.
pub open spec fn keys_at(keys: Seq<(Seq<char>, i32)>, positions: Seq<int>) -> Seq<
    (Seq<char>, i32),
> {
    Seq::new(positions.len(), |i: int| keys[positions[i]])
}

/// The last coordinates, at most as many as are remembered.
pub open spec fn last_hits(hits: Seq<(Seq<char>, i32)>) -> Seq<(Seq<char>, i32)> {
    if hits.len() > RECENT_HIT_HISTORY {
        hits.skip(hits.len() - RECENT_HIT_HISTORY)
    } else {
        hits
    }
}

/// The positions of the matches that are delivered: those that are fresh, or the last match
/// where none is.
pub open spec fn delivered(seen: Seq<(Seq<char>, i32)>, keys: Seq<(Seq<char>, i32)>) -> Seq<int> {
    let fresh = fresh_positions(seen, keys, keys.len() as int);
    if fresh.len() == 0 && keys.len() > 0 {
        seq![keys.len() - 1]
    } else {
        fresh
    }
}

/// What is remembered once the matches were delivered.
pub open spec fn hits_after(seen: Seq<(Seq<char>, i32)>, keys: Seq<(Seq<char>, i32)>) -> Seq<
    (Seq<char>, i32),
> {
    let fresh = fresh_positions(seen, keys, keys.len() as int);
    if fresh.len() == 0 && keys.len() > 0 {
        last_hits(seen).push(keys.last())
    } else {
        last_hits(seen + keys_at(keys, fresh))
    }
}

proof fn lemma_fresh_bound(
    seen: Seq<(Seq<char>, i32)>,
    keys: Seq<(Seq<char>, i32)>,
    n: int,
)
    requires
        0 <= n <= keys.len(),
    ensures
        fresh_positions(seen, keys, n).len() <= n,
        forall|k: int|
            0 <= k < fresh_positions(seen, keys, n).len() ==> {
                &&& 0 <= #[trigger] fresh_positions(seen, keys, n)[k] < n
                &&& is_fresh(seen, keys, fresh_positions(seen, keys, n)[k])
            },
        forall|j: int, k: int|
            0 <= j < k < fresh_positions(seen, keys, n).len() ==> (#[trigger] fresh_positions(
                seen,
                keys,
                n,
            )[j]) < (#[trigger] fresh_positions(seen, keys, n)[k]),
    decreases n,
{
    if n > 0 {
        lemma_fresh_bound(seen, keys, n - 1);
    }
}

/// Where something was found something is delivered; nothing that was remembered is
/// delivered again unless nothing else was found; and no chunk is delivered twice.
pub proof fn law_delivery(seen: Seq<(Seq<char>, i32)>, keys: Seq<(Seq<char>, i32)>)
    ensures
        keys.len() > 0 ==> delivered(seen, keys).len() > 0,
        delivered(seen, keys).len() <= keys.len(),
        forall|k: int|
            0 <= k < delivered(seen, keys).len() ==> 0 <= #[trigger] delivered(seen, keys)[k]
                < keys.len(),
        delivered(seen, keys).len() > 1 ==> forall|k: int|
            0 <= k < delivered(seen, keys).len() ==> !seen.contains(
                keys[#[trigger] delivered(seen, keys)[k]],
            ),
        forall|j: int, k: int|
            0 <= j < k < delivered(seen, keys).len() ==> keys[#[trigger] delivered(seen, keys)[j]]
                != keys[#[trigger] delivered(seen, keys)[k]],
{
    lemma_fresh_bound(seen, keys, keys.len() as int);
    let d = delivered(seen, keys);
    assert forall|j: int, k: int| 0 <= j < k < d.len() implies keys[#[trigger] d[j]]
        != keys[#[trigger] d[k]] by {
        assert(is_fresh(seen, keys, d[k]));
        assert(keys.take(d[k])[d[j]] == keys[d[j]]);
    }
}

/// At most one more chunk is remembered than the history holds.
pub proof fn law_history_bounded(seen: Seq<(Seq<char>, i32)>, keys: Seq<(Seq<char>, i32)>)
    ensures
        hits_after(seen, keys).len() <= RECENT_HIT_HISTORY + 1,
{
}

/// Whether a chunk is among those remembered.
fn knows_hit(hits: &Vec<RecentHit>, path: &str, chunk_index: i32) -> (r: bool)
    ensures
        r == hit_keys(hits@).contains((path@, chunk_index)),
{
    let ghost keys = hit_keys(hits@);
    let mut i: usize = 0;
    while i < hits.len()
        invariant
            i <= hits@.len(),
            keys == hit_keys(hits@),
            forall|k: int| 0 <= k < i ==> #[trigger] keys[k] != (path@, chunk_index),
        decreases hits.len() - i,
    {
        assert(keys[i as int] == (hits@[i as int].path@, hits@[i as int].chunk_index));
        if hits[i].chunk_index == chunk_index && same_text(hits[i].path.as_str(), path) {
            return true;
        }
        i += 1;
    }
    false
}

fn push_hit(hits: &mut Vec<RecentHit>, path: String, chunk_index: i32)
    ensures
        hit_keys(final(hits)@) == hit_keys(old(hits)@).push((path@, chunk_index)),
{
    let ghost before = hits@;
    hits.push(RecentHit { path, chunk_index });
    assert(hit_keys(hits@) =~= hit_keys(before).push((path@, chunk_index)));
}

/// Forgets what is older than the history holds.
fn trim_hits(hits: &mut Vec<RecentHit>)
    ensures
        hit_keys(final(hits)@) == last_hits(hit_keys(old(hits)@)),
{
    let ghost all = hits@;
    let count: usize = hits.len();
    if count > RECENT_HIT_HISTORY {
        let rest = hits.split_off(count - RECENT_HIT_HISTORY);
        *hits = rest;
        assert(hit_keys(hits@) =~= last_hits(hit_keys(all)));
    } else {
        assert(hit_keys(hits@) =~= last_hits(hit_keys(all)));
    }
}

impl EnvironmentSnapshot {
    /// Delivers matches: leaves out the chunks that were delivered of late, unless nothing
    /// would be left, and remembers those that are delivered. The second part of the result
    /// says how many were left out.
    pub fn deduplicate_search_results(&mut self, results: Vec<SemanticSearchMatch>) -> (r: (
        Vec<SemanticSearchMatch>,
        usize,
    ))
        ensures
            ({
                let seen = hit_keys(old(self).recent_hits@);
                let keys = match_keys(results@);
                &&& r.0@.len() == delivered(seen, keys).len()
                &&& forall|k: int|
                    0 <= k < r.0@.len() ==> #[trigger] r.0@[k] == results@[delivered(seen, keys)[k]]
                &&& r.1 == results@.len() - delivered(seen, keys).len()
                &&& hit_keys(final(self).recent_hits@) == hits_after(seen, keys)
            }),
            final(self).cwd == old(self).cwd,
            final(self).bundle_budget_override == old(self).bundle_budget_override,
            final(self).remaining_context_tokens == old(self).remaining_context_tokens,
    {
        let ghost all = results@;
        let ghost seen = hit_keys(self.recent_hits@);
        let ghost keys = match_keys(all);
        let count: usize = results.len();
        let mut retained: Vec<SemanticSearchMatch> = Vec::new();
        let mut last_repeated: Option<SemanticSearchMatch> = None;
        let mut repeated: usize = 0;
        let ghost mut n: int = 0;
        proof {
            assert(seen + keys_at(keys, fresh_positions(seen, keys, 0)) =~= seen);
        }
        for result in it: results
            invariant
                it.seq() == all,
                n == it.index(),
                count == all.len(),
                keys == match_keys(all),
                seen == hit_keys(old(self).recent_hits@),
                hit_keys(self.recent_hits@) == seen + keys_at(
                    keys,
                    fresh_positions(seen, keys, n),
                ),
                self.cwd == old(self).cwd,
                self.bundle_budget_override == old(self).bundle_budget_override,
                self.remaining_context_tokens == old(self).remaining_context_tokens,
                retained@.len() == fresh_positions(seen, keys, n).len(),
                forall|k: int|
                    0 <= k < retained@.len() ==> #[trigger] retained@[k] == all[fresh_positions(
                        seen,
                        keys,
                        n,
                    )[k]],
                repeated == n - retained@.len(),
                retained@.len() == 0 && n > 0 ==> last_repeated == Some(all[n - 1]),
                last_repeated is Some ==> n > 0,
        {
            proof {
                lemma_fresh_bound(seen, keys, n);
                lemma_known(seen, keys, n);
                assert(keys[n] == (result.path@, result.chunk_index));
            }
            let ghost before = hit_keys(self.recent_hits@);
            if knows_hit(&self.recent_hits, result.path.as_str(), result.chunk_index) {
                repeated += 1;
                last_repeated = Some(result);
            } else {
                push_hit(&mut self.recent_hits, result.path.clone(), result.chunk_index);
                retained.push(result);
                proof {
                    let fresh = fresh_positions(seen, keys, n);
                    assert(fresh_positions(seen, keys, n + 1) == fresh.push(n));
                    assert(seen + keys_at(keys, fresh.push(n)) =~= before.push(keys[n]));
                }
            }
            proof {
                n = n + 1;
            }
        }
        trim_hits(&mut self.recent_hits);
        if retained.len() == 0 {
            if let Some(result) = last_repeated {
                proof {
                    assert(seen + keys_at(keys, fresh_positions(seen, keys, n)) =~= seen);
                    assert(keys.last() == (result.path@, result.chunk_index));
                }
                push_hit(&mut self.recent_hits, result.path.clone(), result.chunk_index);
                retained.push(result);
                return (retained, repeated - 1);
            }
        }
        (retained, repeated)
    }
}

/// What is remembered on the way is what was remembered before and what occurred so far.
proof fn lemma_known(seen: Seq<(Seq<char>, i32)>, keys: Seq<(Seq<char>, i32)>, n: int)
    requires
        0 <= n < keys.len(),
    ensures
        (seen + keys_at(keys, fresh_positions(seen, keys, n))).contains(keys[n]) == !is_fresh(
            seen,
            keys,
            n,
        ),
{
    let fresh = fresh_positions(seen, keys, n);
    let known = seen + keys_at(keys, fresh);
    lemma_fresh_bound(seen, keys, n);
    lemma_covered(seen, keys, n);
    if known.contains(keys[n]) {
        let k = choose|k: int| 0 <= k < known.len() && known[k] == keys[n];
        if k < seen.len() {
            assert(seen[k] == keys[n]);
        } else {
            let p = fresh[k - seen.len()];
            assert(keys.take(n)[p] == keys[n]);
        }
    }
    if seen.contains(keys[n]) {
        let k = choose|k: int| 0 <= k < seen.len() && seen[k] == keys[n];
        assert(known[k] == keys[n]);
    } else if keys.take(n).contains(keys[n]) {
        let earlier = keys.take(n);
        let k = choose|k: int| 0 <= k < earlier.len() && earlier[k] == keys[n];
        assert(keys[k] == keys[n]);
        assert(known.contains(keys[k]));
    }
}

/// Every key that occurred so far is known.
proof fn lemma_covered(seen: Seq<(Seq<char>, i32)>, keys: Seq<(Seq<char>, i32)>, n: int)
    requires
        0 <= n <= keys.len(),
    ensures
        forall|i: int|
            0 <= i < n ==> (seen + keys_at(keys, fresh_positions(seen, keys, n))).contains(
                #[trigger] keys[i],
            ),
    decreases n,
{
    if n > 0 {
        lemma_covered(seen, keys, n - 1);
        let fresh = fresh_positions(seen, keys, n - 1);
        let known = seen + keys_at(keys, fresh);
        let now = seen + keys_at(keys, fresh_positions(seen, keys, n));
        assert forall|i: int| 0 <= i < n implies now.contains(#[trigger] keys[i]) by {
            if i < n - 1 {
                let k = choose|k: int| 0 <= k < known.len() && known[k] == keys[i];
                assert(now[k] == known[k]);
            } else if is_fresh(seen, keys, n - 1) {
                assert(now[now.len() - 1] == keys[n - 1]);
            } else if seen.contains(keys[i]) {
                let k = choose|k: int| 0 <= k < seen.len() && seen[k] == keys[i];
                assert(now[k] == seen[k]);
            } else {
                let earlier = keys.take(n - 1);
                let k = choose|k: int| 0 <= k < earlier.len() && earlier[k] == keys[i];
                assert(keys[k] == keys[i]);
                let m = choose|m: int| 0 <= m < known.len() && known[m] == keys[k];
                assert(now[m] == known[m]);
            }
        }
    }
}

/// The chunks that were delivered of late, as a search takes them; none where there are
/// none.
pub fn recent_coordinates(hits: &Vec<RecentHit>) -> (r: Option<Vec<SearchResultCoordinate>>)
    ensures
        match r {
            Some(list) => {
                &&& hits@.len() > 0
                &&& list@.len() == hits@.len()
                &&& forall|i: int|
                    0 <= i < list@.len() ==> (#[trigger] list@[i]).path@ == hits@[i].path@
                        && list@[i].chunk_index == hits@[i].chunk_index
            },
            None => hits@.len() == 0,
        },
{
    if hits.len() == 0 {
        return None;
    }
    let mut out: Vec<SearchResultCoordinate> = Vec::new();
    let mut i: usize = 0;
    while i < hits.len()
        invariant
            i <= hits@.len(),
            out@.len() == i,
            forall|k: int|
                0 <= k < i ==> (#[trigger] out@[k]).path@ == hits@[k].path@ && out@[k].chunk_index
                    == hits@[k].chunk_index,
        decreases hits.len() - i,
    {
        out.push(
            SearchResultCoordinate {
                path: hits[i].path.clone(),
                chunk_index: hits[i].chunk_index,
            },
        );
        i += 1;
    }
    Some(out)
}

// ---------------------------------------------------------------------------
// What holds of the surroundings
// ---------------------------------------------------------------------------

/// The budget is what the caller set, or 2000 tokens, as long as that is not more than three
/// fifths of the room that is left; else it is these three fifths; and 600 tokens where that
/// would be less.
pub proof fn law_budget(wanted: usize, left: usize)
    ensures
        budget_of(None, None) == 2000,
        wanted >= 600 ==> budget_of(Some(wanted), None) == wanted,
        wanted < 600 ==> budget_of(Some(wanted), None) == 600,
        wanted >= 600 && left * 3 / 5 >= wanted ==> budget_of(Some(wanted), Some(left)) == wanted,
        wanted >= 600 && 600 <= left * 3 / 5 <= wanted ==> budget_of(Some(wanted), Some(left)) == left
            * 3 / 5,
        wanted >= 600 && 0 < left * 3 / 5 < 600 ==> budget_of(Some(wanted), Some(left)) == 600,
        budget_of(None, Some(left)) == budget_of(Some(2000), Some(left)),
{
}

/// The larger of two numbers is one of them and not less than either, and so with the smaller.
pub proof fn law_larger_smaller_of(a: int, b: int)
    ensures
        larger_of(a, b) >= a && larger_of(a, b) >= b && (larger_of(a, b) == a || larger_of(a, b)
            == b),
        smaller_of(a, b) <= a && smaller_of(a, b) <= b && (smaller_of(a, b) == a || smaller_of(
            a,
            b,
        ) == b),
{
}

/// What a request says stays, and only what it leaves open is filled in.
pub proof fn law_filled_in<T>(value: T, otherwise: Option<T>)
    ensures
        or_else(Some(value), otherwise) == Some(value),
        or_else(None, otherwise) == otherwise,
{
}

/// What a call says of its surroundings stands in the part of its metadata with that name; of
/// the three spellings the first counts that is there. Without such a part the metadata
/// itself counts, but only where it speaks of the surroundings.
pub proof fn law_environment_source(meta: Seq<char>)
    ensures
        json_value_member(meta, "environment"@) matches Some(part) ==> environment_source(meta)
            == Some(part),
        json_value_member(meta, "environment"@) is None ==> (json_value_member(
            meta,
            "environmentContext"@,
        ) matches Some(part) ==> environment_source(meta) == Some(part)),
        json_value_member(meta, "environment"@) is None && json_value_member(
            meta,
            "environmentContext"@,
        ) is None ==> (json_value_member(meta, "environment_context"@) matches Some(part)
            ==> environment_source(meta) == Some(part)),
        environment_part(meta) is None ==> (environment_source(meta) is Some <==> json_member(
            meta,
            "cwd"@,
        ) || json_member(meta, "bundleBudgetTokens"@) || json_member(meta, "budgetTokens"@)
            || json_member(meta, "tokenUsage"@) || json_member(meta, "remainingContextTokens"@)),
        environment_part(meta) is None ==> (environment_source(meta) matches Some(s) ==> s == meta),
{
}

/// The longer name of the budget counts before the shorter one, and the room that is left is
/// told directly or, else, with the usage of tokens.
pub proof fn law_environment_numbers(source: Seq<char>)
    ensures
        json_value_member(source, "bundleBudgetTokens"@) matches Some(v) ==> budget_member(source)
            == json_unsigned(v),
        json_value_member(source, "bundleBudgetTokens"@) is None ==> (json_value_member(
            source,
            "budgetTokens"@,
        ) matches Some(v) ==> budget_member(source) == json_unsigned(v)),
        json_value_member(source, "bundleBudgetTokens"@) is None && json_value_member(
            source,
            "budgetTokens"@,
        ) is None ==> budget_member(source) is None,
        json_value_member(source, "remainingContextTokens"@) matches Some(v) ==> json_unsigned(v)
            matches Some(n) ==> remaining_member(source) == Some(n),
        json_value_member(source, "remainingContextTokens"@) is None ==> (json_value_member(
            source,
            "tokenUsage"@,
        ) matches Some(u) ==> remaining_member(source) == number_member(
            u,
            "remainingContextTokens"@,
        )),
        json_value_member(source, "remainingContextTokens"@) is None && json_value_member(
            source,
            "tokenUsage"@,
        ) is None ==> remaining_member(source) is None,
{
}

proof fn lemma_fresh_positions(
    seen: Seq<(Seq<char>, i32)>,
    keys: Seq<(Seq<char>, i32)>,
    n: int,
)
    requires
        n <= keys.len(),
    ensures
        forall|i: int|
            0 <= i < n ==> (#[trigger] fresh_positions(seen, keys, n).contains(i) <==> is_fresh(
                seen,
                keys,
                i,
            )),
        forall|k: int|
            0 <= k < fresh_positions(seen, keys, n).len() ==> 0 <= #[trigger] fresh_positions(
                seen,
                keys,
                n,
            )[k] < n,
        forall|j: int, k: int|
            0 <= j < k < fresh_positions(seen, keys, n).len() ==> fresh_positions(seen, keys, n)[j]
                < fresh_positions(seen, keys, n)[k],
    decreases n,
{
    if n > 0 {
        lemma_fresh_positions(seen, keys, n - 1);
        let before = fresh_positions(seen, keys, n - 1);
        let all = fresh_positions(seen, keys, n);
        assert forall|i: int| 0 <= i < n implies (#[trigger] all.contains(i) <==> is_fresh(
            seen,
            keys,
            i,
        )) by {
            if before.contains(i) {
                let k = choose|k: int| 0 <= k < before.len() && before[k] == i;
                assert(all[k] == i);
            }
            if i < n - 1 {
                if all.contains(i) {
                    let k = choose|k: int| 0 <= k < all.len() && all[k] == i;
                    assert(before[k] == i);
                }
            } else if all.len() > before.len() {
                assert(all[before.len() as int] == i);
            } else if all.contains(i) {
                let k = choose|k: int| 0 <= k < all.len() && all[k] == i;
                assert(before[k] == i);
            }
        }
    }
}

/// Every match that was not delivered of late and is not repeated among the matches is
/// delivered, in their order; where there are none such, the last match is.
pub proof fn law_fresh_delivered(
    seen: Seq<(Seq<char>, i32)>,
    keys: Seq<(Seq<char>, i32)>,
    i: int,
)
    requires
        0 <= i < keys.len(),
    ensures
        !seen.contains(keys[i]) && (forall|j: int| 0 <= j < i ==> #[trigger] keys[j] != keys[i])
            ==> delivered(seen, keys).contains(i),
        forall|j: int, k: int|
            0 <= j < k < delivered(seen, keys).len() ==> delivered(seen, keys)[j] < delivered(
                seen,
                keys,
            )[k],
        (forall|j: int| 0 <= j < keys.len() ==> seen.contains(#[trigger] keys[j])) ==> delivered(
            seen,
            keys,
        ) == seq![keys.len() - 1],
{
    let n = keys.len() as int;
    lemma_fresh_positions(seen, keys, n);
    let fresh = fresh_positions(seen, keys, n);
    if !seen.contains(keys[i]) && (forall|j: int| 0 <= j < i ==> #[trigger] keys[j] != keys[i]) {
        assert(!keys.take(i).contains(keys[i])) by {
            if keys.take(i).contains(keys[i]) {
                let j = choose|j: int| 0 <= j < i && keys.take(i)[j] == keys[i];
                assert(keys[j] == keys[i]);
            }
        }
        assert(is_fresh(seen, keys, i));
        assert(fresh.contains(i));
    }
    if forall|j: int| 0 <= j < keys.len() ==> seen.contains(#[trigger] keys[j]) {
        if fresh.len() > 0 {
            let x = fresh[0];
            assert(fresh.contains(x));
            assert(seen.contains(keys[x]));
        }
    }
}

/// What is remembered are the latest 32 of what was delivered, in their order.
pub proof fn law_last_hits(hits: Seq<(Seq<char>, i32)>)
    ensures
        last_hits(hits).is_suffix_of(hits),
        hits.len() <= 32 ==> last_hits(hits) == hits,
        hits.len() > 32 ==> last_hits(hits).len() == 32,
{
    let t = last_hits(hits);
    assert(t =~= hits.subrange(hits.len() - t.len(), hits.len() as int));
}

/// What was delivered last is remembered.
pub proof fn law_delivered_remembered(seen: Seq<(Seq<char>, i32)>, keys: Seq<(Seq<char>, i32)>)
    requires
        keys.len() > 0,
    ensures
        hits_after(seen, keys).len() > 0,
        hits_after(seen, keys).last() == keys[delivered(seen, keys).last()],
{
    let fresh = fresh_positions(seen, keys, keys.len() as int);
    if fresh.len() > 0 {
        let all = seen + keys_at(keys, fresh);
        assert(all.last() == keys[fresh.last()]);
        assert(last_hits(all).last() == all.last());
    }
}

} // verus!
