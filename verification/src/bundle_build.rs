//! Puts a bundle together, from the request to the response that is cached.

use vstd::prelude::*;
use crate::bundle::{
    BundleDefinition, BundleDiagnostics, BundleEdgeNeighbor, BundleFileMetadata,
    BundleIngestionSummary, BundleSnippet, BundleUsageStats, ContextBundleResponse, LineRange,
    SymbolSelector, DEFAULT_NEIGHBOR_LIMIT, DEFAULT_SNIPPET_LIMIT, DEFAULT_TOKEN_BUDGET,
    MAX_NEIGHBOR_LIMIT, MAX_SNIPPET_LIMIT,
};
use crate::bundle_budget::{
    brief_of, budget_plan, build_file_brief, costs_of, cut_usage, cut_warnings,
    definitions_tokens_of, kept_snippets, trim_snippets_to_budget, unused,
};
use crate::bundle_graph::{
    all_links, as_text, build_quick_links, first_links, gather_warnings, link_views,
    missing_warnings, text_of,
};
use crate::bundle_snippets::{append_neighbor_snippets, key_of, keys_of, opt_view, snippets_at};
use crate::decimal::{parse_unsigned, unsigned_of};
use crate::pieces::{push_text, replace_char, replaced_char, texts};
use crate::ranking::{law_new_positions, new_positions};
use crate::score::{greatest_of, law_score_range, least_of, score_range, Score};
use crate::text::{same_text, trim_str, trimmed};

verus! {

/// A path with forward slashes.
pub fn normalize_file(file: &str) -> (r: String)
    ensures
        r@ == replaced_char(file@, '\\', '/'),
{
    replace_char(file, '\\', '/')
}

/// The query without white space at its ends, where anything is left of it.
pub open spec fn query_text(query: Option<Seq<char>>) -> Option<Seq<char>> {
    match query {
        Some(q) => if trimmed(q).len() > 0 {
            Some(trimmed(q))
        } else {
            None
        },
        None => None,
    }
}

/// The query without white space at its ends, where anything is left of it.
pub fn clean_query(query: Option<String>) -> (r: Option<String>)
    ensures
        text_of(r) == query_text(text_of(query)),
{
    match query {
        Some(q) => {
            let t = trim_str(q.as_str());
            if t.as_str().is_empty() {
                None
            } else {
                Some(t)
            }
        },
        None => None,
    }
}

/// A number that a request names, at most `max`; `default` where it names none.
pub open spec fn limited(requested: Option<u32>, max: usize, default: usize) -> int {
    match requested {
        Some(v) => if v > max {
            max as int
        } else {
            v as int
        },
        None => default as int,
    }
}

/// How many snippets are returned.
pub fn snippet_limit(requested: Option<u32>) -> (r: usize)
    ensures
        r == limited(requested, MAX_SNIPPET_LIMIT, DEFAULT_SNIPPET_LIMIT),
        r <= MAX_SNIPPET_LIMIT,
{
    match requested {
        Some(v) => if v as usize > MAX_SNIPPET_LIMIT {
            MAX_SNIPPET_LIMIT
        } else {
            v as usize
        },
        None => DEFAULT_SNIPPET_LIMIT,
    }
}

/// How many neighbours are returned.
pub fn neighbor_limit(requested: Option<u32>) -> (r: usize)
    ensures
        r == limited(requested, MAX_NEIGHBOR_LIMIT, DEFAULT_NEIGHBOR_LIMIT),
        r <= MAX_NEIGHBOR_LIMIT,
{
    match requested {
        Some(v) => if v as usize > MAX_NEIGHBOR_LIMIT {
            MAX_NEIGHBOR_LIMIT
        } else {
            v as usize
        },
        None => DEFAULT_NEIGHBOR_LIMIT,
    }
}

/// The tokens that a bundle may take: as requested, else as the environment sets it, where
/// that is a number, else the default.
pub open spec fn budget_of(requested: Option<u32>, configured: Option<Seq<char>>) -> int {
    match requested {
        Some(v) => v as int,
        None => match configured {
            Some(text) => match unsigned_of(trimmed(text), u32::MAX as nat) {
                Some(v) => v as int,
                None => DEFAULT_TOKEN_BUDGET as int,
            },
            None => DEFAULT_TOKEN_BUDGET as int,
        },
    }
}

/// The variable of the environment that sets the token budget.
pub const BUDGET_VARIABLE: &'static str = "INDEX_MCP_BUDGET_TOKENS";

/// The token budget. `configured` is what the environment holds for it.
pub fn token_budget(requested: Option<u32>, configured: Option<&str>) -> (r: usize)
    ensures
        r == budget_of(requested, opt_view(configured)),
{
    if let Some(v) = requested {
        return v as usize;
    }
    if let Some(text) = configured {
        if let Some(v) = parse_unsigned(trim_str(text).as_str(), u32::MAX as u64) {
            return v as usize;
        }
    }
    DEFAULT_TOKEN_BUDGET
}

// ---------------------------------------------------------------------------
// Ranges in order
// ---------------------------------------------------------------------------

/// `a` does not come behind `b`: by its first line, then by its last.
pub open spec fn range_le(a: LineRange, b: LineRange) -> bool {
    a.start_line < b.start_line || (a.start_line == b.start_line && a.end_line <= b.end_line)
}

/// The ranges are in order.
pub open spec fn ranges_ordered(s: Seq<LineRange>) -> bool {
    forall|i: int, j: int| 0 <= i < j < s.len() ==> range_le(s[i], s[j])
}

/// The ranges in order.
pub fn sort_ranges(ranges: Vec<LineRange>) -> (r: Vec<LineRange>)
    ensures
        ranges_ordered(r@),
        r@.to_multiset() == ranges@.to_multiset(),
        r@.len() == ranges@.len(),
{
    broadcast use vstd::seq_lib::group_to_multiset_ensures;

    let mut out: Vec<LineRange> = Vec::new();
    let mut i: usize = 0;
    assert(ranges@.take(0) =~= Seq::<LineRange>::empty());
    while i < ranges.len()
        invariant
            i <= ranges.len(),
            out@.len() == i,
            ranges_ordered(out@),
            out@.to_multiset() == ranges@.take(i as int).to_multiset(),
        decreases ranges.len() - i,
    {
        let x = ranges[i];
        let mut p: usize = out.len();
        while p > 0 && (x.start_line < out[p - 1].start_line || (x.start_line
            == out[p - 1].start_line && x.end_line < out[p - 1].end_line))
            invariant
                p <= out.len(),
                ranges_ordered(out@),
                forall|k: int| p <= k < out@.len() ==> range_le(x, #[trigger] out@[k]),
            decreases p,
        {
            p -= 1;
        }
        let ghost before = out@;
        proof {
            if p > 0 {
                assert(range_le(before[p - 1], x));
            }
        }
        out.insert(p, x);
        proof {
            vstd::seq_lib::to_multiset_insert(before, p as int, x);
            assert(out@ =~= before.insert(p as int, x));
            vstd::seq_lib::to_multiset_build(ranges@.take(i as int), x);
            assert(ranges@.take(i + 1) =~= ranges@.take(i as int).push(x));
            assert forall|a: int, b: int| 0 <= a < b < out@.len() implies range_le(
                out@[a],
                out@[b],
            ) by {
                if a < p && b < p {
                    assert(range_le(before[a], before[b]));
                } else if a < p && b == p {
                    if a < p - 1 {
                        assert(range_le(before[a], before[p - 1]));
                    }
                } else if a < p && b > p {
                    assert(range_le(before[a], before[b - 1]));
                } else if a == p {
                    assert(range_le(x, before[b - 1]));
                } else {
                    assert(range_le(before[a - 1], before[b - 1]));
                }
            }
        }
        i += 1;
    }
    assert(ranges@.take(i as int) =~= ranges@);
    out
}

/// Two orderings of the same ranges are the same sequence.
pub proof fn law_order_unique(a: Seq<LineRange>, b: Seq<LineRange>)
    requires
        ranges_ordered(a),
        ranges_ordered(b),
        a.to_multiset() == b.to_multiset(),
    ensures
        a == b,
    decreases a.len(),
{
    broadcast use vstd::seq_lib::group_to_multiset_ensures;

    assert(a.len() == a.to_multiset().len());
    assert(b.len() == b.to_multiset().len());
    if a.len() > 0 {
        let x = a[0];
        let y = b[0];
        assert(b.to_multiset().count(x) > 0) by {
            assert(a.contains(a[0]));
            assert(a.to_multiset().contains(x));
        }
        assert(b.contains(x)) by {
            assert(b.to_multiset().contains(x));
        }
        assert(a.contains(y)) by {
            assert(b.contains(b[0]));
            assert(b.to_multiset().contains(y));
            assert(a.to_multiset().contains(y));
        }
        let i = choose|i: int| 0 <= i < b.len() && b[i] == x;
        let j = choose|j: int| 0 <= j < a.len() && a[j] == y;
        assert(range_le(y, x)) by {
            if i > 0 {
                assert(range_le(b[0], b[i]));
            }
        }
        assert(range_le(x, y)) by {
            if j > 0 {
                assert(range_le(a[0], a[j]));
            }
        }
        assert(x == y);
        assert(a.remove(0).to_multiset() =~= a.to_multiset().remove(x));
        assert(b.remove(0).to_multiset() =~= b.to_multiset().remove(y));
        assert(a.remove(0) =~= a.drop_first());
        assert(b.remove(0) =~= b.drop_first());
        law_order_unique(a.drop_first(), b.drop_first());
        assert(a =~= seq![x] + a.drop_first());
        assert(b =~= seq![y] + b.drop_first());
    } else {
        assert(a =~= b);
    }
}

// ---------------------------------------------------------------------------
// The cache
// ---------------------------------------------------------------------------

/// What tells two bundle requests apart.
#[derive(Debug)]
pub struct BundleCacheKey {
    pub database_path: String,
    pub file_path: String,
    pub file_hash: String,
    pub symbol: Option<SymbolSelector>,
    pub ranges: Vec<LineRange>,
    pub focus_line: Option<u32>,
    pub max_snippets: usize,
    pub budget_tokens: usize,
    pub max_neighbors: usize,
    pub query_fingerprint: Option<String>,
}

/// A key, by the text of its parts.
pub struct KeyView {
    pub database_path: Seq<char>,
    pub file_path: Seq<char>,
    pub file_hash: Seq<char>,
    pub symbol: Option<(Seq<char>, Option<Seq<char>>)>,
    pub ranges: Seq<LineRange>,
    pub focus_line: Option<u32>,
    pub max_snippets: usize,
    pub budget_tokens: usize,
    pub max_neighbors: usize,
    pub query_fingerprint: Option<Seq<char>>,
}

impl View for BundleCacheKey {
    type V = KeyView;

    open spec fn view(&self) -> KeyView {
        KeyView {
            database_path: self.database_path@,
            file_path: self.file_path@,
            file_hash: self.file_hash@,
            symbol: match self.symbol {
                Some(s) => Some((s.name@, text_of(s.kind))),
                None => None,
            },
            ranges: self.ranges@,
            focus_line: self.focus_line,
            max_snippets: self.max_snippets,
            budget_tokens: self.budget_tokens,
            max_neighbors: self.max_neighbors,
            query_fingerprint: text_of(self.query_fingerprint),
        }
    }
}

/// Whether two optional strings hold the same text.
pub fn same_optional(a: &Option<String>, b: &Option<String>) -> (r: bool)
    ensures
        r == (text_of(*a) == text_of(*b)),
{
    match (a, b) {
        (Some(x), Some(y)) => same_text(x.as_str(), y.as_str()),
        (None, None) => true,
        _ => false,
    }
}

impl BundleCacheKey {
    /// Whether two keys stand for the same request.
    pub fn same_as(&self, other: &BundleCacheKey) -> (r: bool)
        ensures
            r == (self@ == other@),
    {
        let same_symbol = match (&self.symbol, &other.symbol) {
            (Some(a), Some(b)) => same_text(a.name.as_str(), b.name.as_str()) && same_optional(
                &a.kind,
                &b.kind,
            ),
            (None, None) => true,
            _ => false,
        };
        let mut same_ranges = self.ranges.len() == other.ranges.len();
        if same_ranges {
            let mut i: usize = 0;
            while i < self.ranges.len()
                invariant
                    i <= self.ranges.len(),
                    self.ranges@.len() == other.ranges@.len(),
                    same_ranges == (forall|k: int|
                        0 <= k < i ==> self.ranges@[k] == other.ranges@[k]),
                decreases self.ranges.len() - i,
            {
                if self.ranges[i] != other.ranges[i] {
                    same_ranges = false;
                }
                i += 1;
            }
        }
        proof {
            if same_ranges {
                assert(self.ranges@ =~= other.ranges@);
            }
        }
        let r = same_text(self.database_path.as_str(), other.database_path.as_str()) && same_text(
            self.file_path.as_str(),
            other.file_path.as_str(),
        ) && same_text(self.file_hash.as_str(), other.file_hash.as_str()) && same_symbol
            && same_ranges && self.focus_line == other.focus_line && self.max_snippets
            == other.max_snippets && self.budget_tokens == other.budget_tokens
            && self.max_neighbors == other.max_neighbors && same_optional(
            &self.query_fingerprint,
            &other.query_fingerprint,
        );
        r
    }
}

/// A bundle with its mark whether it came from the cache.
pub open spec fn with_hit(v: ContextBundleResponse, hit: bool) -> ContextBundleResponse {
    ContextBundleResponse { usage: BundleUsageStats { cache_hit: hit, ..v.usage }, ..v }
}

/// The contents of a cache: keys and bundles, the one used longest ago first.
pub type CacheView = Seq<(KeyView, ContextBundleResponse)>;

/// The position of a key, or the number of entries.
pub open spec fn key_position(entries: CacheView, key: KeyView) -> int
    decreases entries.len(),
{
    if entries.len() == 0 || entries[0].0 == key {
        0
    } else {
        1 + key_position(entries.drop_first(), key)
    }
}

/// What the cache holds after a lookup: the entry found moves behind all others.
pub open spec fn after_get(entries: CacheView, key: KeyView) -> CacheView {
    let p = key_position(entries, key);
    if p < entries.len() {
        entries.remove(p).push((key, with_hit(entries[p].1, true)))
    } else {
        entries
    }
}

/// What a lookup finds.
pub open spec fn found_by_get(entries: CacheView, key: KeyView) -> Option<ContextBundleResponse> {
    let p = key_position(entries, key);
    if p < entries.len() {
        Some(with_hit(entries[p].1, true))
    } else {
        None
    }
}

/// What the cache holds after a bundle is stored: an old entry for the key is replaced,
/// else the entry used longest ago leaves where the cache is full.
pub open spec fn after_put(
    entries: CacheView,
    capacity: int,
    key: KeyView,
    value: ContextBundleResponse,
) -> CacheView {
    let p = key_position(entries, key);
    let kept = if p < entries.len() {
        entries.remove(p)
    } else if entries.len() >= capacity && entries.len() > 0 {
        entries.drop_first()
    } else {
        entries
    };
    kept.push((key, with_hit(value, false)))
}

/// No key occurs twice.
pub open spec fn keys_differ(entries: CacheView) -> bool {
    forall|i: int, j: int|
        0 <= i < j < entries.len() ==> (#[trigger] entries[i]).0 != (#[trigger] entries[j]).0
}

proof fn lemma_key_position(entries: CacheView, key: KeyView)
    ensures
        0 <= key_position(entries, key) <= entries.len(),
        key_position(entries, key) < entries.len() ==> entries[key_position(entries, key)].0 == key,
        forall|i: int| 0 <= i < key_position(entries, key) ==> (#[trigger] entries[i]).0 != key,
    decreases entries.len(),
{
    if entries.len() == 0 || entries[0].0 == key {
    } else {
        lemma_key_position(entries.drop_first(), key);
        assert forall|i: int| 0 <= i < key_position(entries, key) implies (#[trigger] entries[i]).0
            != key by {
            if i > 0 {
                assert(entries.drop_first()[i - 1] == entries[i]);
            }
        }
    }
}

proof fn lemma_key_position_is(entries: CacheView, key: KeyView, p: int)
    requires
        0 <= p <= entries.len(),
        p < entries.len() ==> entries[p].0 == key,
        forall|i: int| 0 <= i < p ==> (#[trigger] entries[i]).0 != key,
    ensures
        key_position(entries, key) == p,
{
    lemma_key_position(entries, key);
    let q = key_position(entries, key);
    if q < p {
        assert(entries[q].0 != key);
    } else if p < q {
        assert(entries[p].0 != key);
    }
}

/// A lookup finds the bundle that was stored last for its key, marked as a hit.
pub proof fn law_read_back(
    entries: CacheView,
    capacity: int,
    key: KeyView,
    value: ContextBundleResponse,
)
    requires
        keys_differ(entries),
    ensures
        found_by_get(after_put(entries, capacity, key, value), key) == Some(with_hit(value, true)),
{
    let after = after_put(entries, capacity, key, value);
    let p = key_position(entries, key);
    lemma_key_position(entries, key);
    assert forall|i: int| 0 <= i < after.len() - 1 implies (#[trigger] after[i]).0 != key by {
        if p < entries.len() {
            if i < p {
                assert(after[i] == entries[i]);
            } else {
                assert(after[i] == entries[i + 1]);
                assert(entries[p].0 != entries[i + 1].0);
            }
        } else if entries.len() >= capacity && entries.len() > 0 {
            assert(after[i] == entries[i + 1]);
        } else {
            assert(after[i] == entries[i]);
        }
    }
    lemma_key_position_is(after, key, after.len() - 1);
}

/// Storing and looking up keep every key unique, and the cache never holds more entries
/// than its capacity, or one where the capacity is zero.
pub proof fn law_cache_invariant(
    entries: CacheView,
    capacity: int,
    key: KeyView,
    value: ContextBundleResponse,
)
    requires
        keys_differ(entries),
        entries.len() <= capacity || entries.len() <= 1,
        capacity >= 0,
    ensures
        keys_differ(after_put(entries, capacity, key, value)),
        keys_differ(after_get(entries, key)),
        after_put(entries, capacity, key, value).len() <= capacity || after_put(
            entries,
            capacity,
            key,
            value,
        ).len() <= 1,
        after_get(entries, key).len() == entries.len(),
{
    lemma_key_position(entries, key);
    let p = key_position(entries, key);
    let put = after_put(entries, capacity, key, value);
    let got = after_get(entries, key);
    assert forall|i: int, j: int| 0 <= i < j < put.len() implies (#[trigger] put[i]).0
        != (#[trigger] put[j]).0 by {
        let a = if p < entries.len() {
            if i < p {
                i
            } else {
                i + 1
            }
        } else if entries.len() >= capacity && entries.len() > 0 {
            i + 1
        } else {
            i
        };
        assert(put[i] == entries[a]);
        if j < put.len() - 1 {
            let b = if p < entries.len() {
                if j < p {
                    j
                } else {
                    j + 1
                }
            } else if entries.len() >= capacity && entries.len() > 0 {
                j + 1
            } else {
                j
            };
            assert(put[j] == entries[b]);
            assert(entries[a].0 != entries[b].0);
        } else if p < entries.len() {
            if a < p {
                assert(entries[a].0 != entries[p].0);
            } else {
                assert(entries[p].0 != entries[a].0);
            }
        }
    }
    if p < entries.len() {
        assert forall|i: int, j: int| 0 <= i < j < got.len() implies (#[trigger] got[i]).0
            != (#[trigger] got[j]).0 by {
            let a = if i < p {
                i
            } else {
                i + 1
            };
            assert(got[i] == entries[a]);
            if j < got.len() - 1 {
                let b = if j < p {
                    j
                } else {
                    j + 1
                };
                assert(got[j] == entries[b]);
                assert(entries[a].0 != entries[b].0);
            } else {
                if a < p {
                    assert(entries[a].0 != entries[p].0);
                } else {
                    assert(entries[p].0 != entries[a].0);
                }
            }
        }
    }
}

/// Storing a bundle leaves what is found for every other key, except for the key used
/// longest ago where the cache is full and the stored key is new.
pub proof fn law_put_frame(
    entries: CacheView,
    capacity: int,
    key: KeyView,
    value: ContextBundleResponse,
    other: KeyView,
)
    requires
        keys_differ(entries),
        other != key,
        entries.len() < capacity || key_position(entries, key) < entries.len() || entries.len() == 0
            || entries[0].0 != other,
    ensures
        found_by_get(after_put(entries, capacity, key, value), other) == found_by_get(
            entries,
            other,
        ),
{
    lemma_key_position(entries, key);
    lemma_key_position(entries, other);
    let p = key_position(entries, key);
    let q = key_position(entries, other);
    let after = after_put(entries, capacity, key, value);
    let evicts = p >= entries.len() && entries.len() >= capacity && entries.len() > 0;
    if q < entries.len() {
        let t = if p < entries.len() {
            if q < p {
                q
            } else {
                q - 1
            }
        } else if evicts {
            q - 1
        } else {
            q
        };
        assert(after[t] == entries[q]);
        assert forall|i: int| 0 <= i < t implies (#[trigger] after[i]).0 != other by {
            if p < entries.len() {
                if i < p {
                    assert(after[i] == entries[i]);
                } else {
                    assert(after[i] == entries[i + 1]);
                }
            } else if evicts {
                assert(after[i] == entries[i + 1]);
            } else {
                assert(after[i] == entries[i]);
            }
        }
        lemma_key_position_is(after, other, t);
    } else {
        assert forall|i: int| 0 <= i < after.len() implies (#[trigger] after[i]).0 != other by {
            if i < after.len() - 1 {
                if p < entries.len() {
                    if i < p {
                        assert(after[i] == entries[i]);
                    } else {
                        assert(after[i] == entries[i + 1]);
                    }
                } else if evicts {
                    assert(after[i] == entries[i + 1]);
                } else {
                    assert(after[i] == entries[i]);
                }
            }
        }
        lemma_key_position_is(after, other, after.len() as int);
    }
}

/// A bundle that was just looked up is not the next to leave while another is there.
pub proof fn law_used_bundle_stays(entries: CacheView, key: KeyView)
    requires
        keys_differ(entries),
        key_position(entries, key) < entries.len(),
        entries.len() > 1,
    ensures
        after_get(entries, key)[0].0 != key,
        after_get(entries, key).last().0 == key,
{
    lemma_key_position(entries, key);
    let p = key_position(entries, key);
    let got = after_get(entries, key);
    if p == 0 {
        assert(got[0] == entries[1]);
        assert(entries[0].0 != entries[1].0);
    } else {
        assert(got[0] == entries[0]);
    }
}

/// A call of the cache.
pub enum CacheCall {
    /// A bundle is stored.
    Put { key: KeyView, value: ContextBundleResponse },
    /// A bundle is looked up.
    Get { key: KeyView },
}

/// What a cache holds after calls, from the empty cache on.
pub open spec fn cache_after(calls: Seq<CacheCall>, capacity: int) -> CacheView
    decreases calls.len(),
{
    if calls.len() == 0 {
        CacheView::empty()
    } else {
        let before = cache_after(calls.drop_last(), capacity);
        match calls.last() {
            CacheCall::Put { key, value } => after_put(before, capacity, key, value),
            CacheCall::Get { key } => after_get(before, key),
        }
    }
}

/// The keys with one of them moved behind the others, or put there where it is new.
pub open spec fn moved_last(keys: Seq<KeyView>, key: KeyView) -> Seq<KeyView> {
    if keys.contains(key) {
        keys.remove(keys.index_of(key)).push(key)
    } else {
        keys.push(key)
    }
}

/// The keys that were used, each once, the one used last at the end. A key is used where a
/// bundle is stored for it and where a lookup finds one.
pub open spec fn keys_by_use(calls: Seq<CacheCall>, capacity: int) -> Seq<KeyView>
    decreases calls.len(),
{
    if calls.len() == 0 {
        Seq::empty()
    } else {
        let before = keys_by_use(calls.drop_last(), capacity);
        match calls.last() {
            CacheCall::Put { key, value } => moved_last(before, key),
            CacheCall::Get { key } => if found_by_get(
                cache_after(calls.drop_last(), capacity),
                key,
            ) is Some {
                moved_last(before, key)
            } else {
                before
            },
        }
    }
}

/// The bundle that was stored last for a key.
pub open spec fn last_stored(calls: Seq<CacheCall>, key: KeyView) -> Option<ContextBundleResponse>
    decreases calls.len(),
{
    if calls.len() == 0 {
        None
    } else {
        match calls.last() {
            CacheCall::Put { key: stored, value } => if stored == key {
                Some(value)
            } else {
                last_stored(calls.drop_last(), key)
            },
            CacheCall::Get { key: _ } => last_stored(calls.drop_last(), key),
        }
    }
}

/// How many bundles a cache holds at most: its capacity, but never less than one.
pub open spec fn places(capacity: int) -> int {
    if capacity < 1 {
        1
    } else {
        capacity
    }
}

/// The last `n` keys, or all where there are fewer.
pub open spec fn last_keys(keys: Seq<KeyView>, n: int) -> Seq<KeyView> {
    if keys.len() <= n {
        keys
    } else {
        keys.skip(keys.len() - n)
    }
}

/// The keys of the entries.
pub open spec fn entry_keys(entries: CacheView) -> Seq<KeyView> {
    Seq::new(entries.len(), |i: int| entries[i].0)
}

/// Every entry is the bundle that was stored last for its key.
pub open spec fn entries_stored(entries: CacheView, calls: Seq<CacheCall>) -> bool {
    forall|i: int|
        0 <= i < entries.len() ==> (last_stored(calls, (#[trigger] entries[i]).0) matches Some(v)
            && with_hit(entries[i].1, true) == with_hit(v, true))
}

proof fn lemma_moved_distinct(keys: Seq<KeyView>, key: KeyView)
    requires
        keys.no_duplicates(),
    ensures
        moved_last(keys, key).no_duplicates(),
{
    let moved = moved_last(keys, key);
    if keys.contains(key) {
        let p = keys.index_of(key);
        assert forall|i: int, j: int| 0 <= i < moved.len() && 0 <= j < moved.len() && i
            != j implies moved[i] != moved[j] by {
            let a = if i < p {
                i
            } else {
                i + 1
            };
            let b = if j < p {
                j
            } else {
                j + 1
            };
            if i < moved.len() - 1 {
                assert(moved[i] == keys[a]);
            }
            if j < moved.len() - 1 {
                assert(moved[j] == keys[b]);
            }
        }
    } else {
        assert forall|i: int, j: int| 0 <= i < moved.len() && 0 <= j < moved.len() && i
            != j implies moved[i] != moved[j] by {
            if i < keys.len() {
                assert(keys.contains(keys[i]));
            }
            if j < keys.len() {
                assert(keys.contains(keys[j]));
            }
        }
    }
}

/// A key that is moved among all keys is moved among the last ones, or pushes the first of
/// them out.
proof fn lemma_last_of_moved(keys: Seq<KeyView>, key: KeyView, n: int)
    requires
        keys.no_duplicates(),
        n >= 1,
    ensures
        ({
            let last = last_keys(keys, n);
            &&& last.no_duplicates()
            &&& last_keys(moved_last(keys, key), n) == if last.contains(key) {
                moved_last(last, key)
            } else if last.len() >= n {
                last.drop_first().push(key)
            } else {
                last.push(key)
            }
        }),
{
    let last = last_keys(keys, n);
    let skipped = keys.len() - last.len();
    assert forall|j: int| 0 <= j < last.len() implies last[j] == keys[skipped + j] by {}
    let moved = moved_last(keys, key);
    let kept = last_keys(moved, n);
    if last.contains(key) {
        let q = last.index_of(key);
        assert(keys[skipped + q] == key);
        assert(keys.contains(key));
        let p = keys.index_of(key);
        assert(p == skipped + q);
        assert forall|j: int| 0 <= j < kept.len() implies kept[j] == moved_last(last, key)[j] by {
            assert(kept[j] == moved[skipped + j]);
        }
        assert(kept =~= moved_last(last, key));
    } else if keys.contains(key) {
        let p = keys.index_of(key);
        if p >= skipped {
            assert(last[p - skipped] == key);
        }
        assert(last.len() == n);
        assert forall|j: int| 0 <= j < kept.len() implies kept[j] == last.drop_first().push(
            key,
        )[j] by {
            assert(kept[j] == moved[skipped + j]);
        }
        assert(kept =~= last.drop_first().push(key));
    } else if last.len() >= n {
        assert(kept =~= last.drop_first().push(key));
    } else {
        assert(kept =~= last.push(key));
    }
}

proof fn lemma_entry_keys(entries: CacheView, key: KeyView)
    requires
        keys_differ(entries),
    ensures
        entry_keys(entries).no_duplicates(),
        entry_keys(entries).contains(key) <==> key_position(entries, key) < entries.len(),
        entry_keys(entries).contains(key) ==> entry_keys(entries).index_of(key) == key_position(
            entries,
            key,
        ),
{
    let keys = entry_keys(entries);
    let p = key_position(entries, key);
    lemma_key_position(entries, key);
    assert forall|i: int, j: int| 0 <= i < keys.len() && 0 <= j < keys.len() && i
        != j implies keys[i] != keys[j] by {
        if i < j {
            assert(entries[i].0 != entries[j].0);
        } else {
            assert(entries[j].0 != entries[i].0);
        }
    }
    if p < entries.len() {
        assert(keys[p] == key);
    }
    if keys.contains(key) {
        let q = keys.index_of(key);
        assert(entries[q].0 == key);
    }
}

proof fn lemma_keys_after(entries: CacheView, capacity: int, key: KeyView, value: ContextBundleResponse)
    requires
        keys_differ(entries),
    ensures
        entry_keys(after_get(entries, key)) == if entry_keys(entries).contains(key) {
            moved_last(entry_keys(entries), key)
        } else {
            entry_keys(entries)
        },
        entry_keys(after_put(entries, capacity, key, value)) == if entry_keys(entries).contains(
            key,
        ) {
            moved_last(entry_keys(entries), key)
        } else if entries.len() >= places(capacity) {
            entry_keys(entries).drop_first().push(key)
        } else {
            entry_keys(entries).push(key)
        },
{
    lemma_entry_keys(entries, key);
    lemma_key_position(entries, key);
    let keys = entry_keys(entries);
    let got = entry_keys(after_get(entries, key));
    let put = entry_keys(after_put(entries, capacity, key, value));
    if keys.contains(key) {
        assert(got =~= moved_last(keys, key));
        assert(put =~= moved_last(keys, key));
    } else {
        assert(got =~= keys);
        if entries.len() >= places(capacity) {
            assert(put =~= keys.drop_first().push(key));
        } else {
            assert(put =~= keys.push(key));
        }
    }
}

proof fn lemma_stored_after_get(entries: CacheView, calls: Seq<CacheCall>, key: KeyView)
    requires
        calls.len() > 0,
        calls.last() == (CacheCall::Get { key }),
        keys_differ(entries),
        entries_stored(entries, calls.drop_last()),
    ensures
        entries_stored(after_get(entries, key), calls),
{
    lemma_key_position(entries, key);
    let p = key_position(entries, key);
    let got = after_get(entries, key);
    assert forall|i: int| 0 <= i < got.len() implies (last_stored(calls, (#[trigger] got[i]).0)
        matches Some(v) && with_hit(got[i].1, true) == with_hit(v, true)) by {
        let a = if p >= entries.len() || i < p {
            i
        } else if i < got.len() - 1 {
            i + 1
        } else {
            p
        };
        assert(got[i].0 == entries[a].0);
        assert(with_hit(got[i].1, true) == with_hit(entries[a].1, true));
        assert(last_stored(calls, got[i].0) == last_stored(calls.drop_last(), entries[a].0));
    }
}

proof fn lemma_stored_after_put(
    entries: CacheView,
    calls: Seq<CacheCall>,
    capacity: int,
    key: KeyView,
    value: ContextBundleResponse,
)
    requires
        calls.len() > 0,
        calls.last() == (CacheCall::Put { key, value }),
        keys_differ(entries),
        entries_stored(entries, calls.drop_last()),
    ensures
        entries_stored(after_put(entries, capacity, key, value), calls),
{
    lemma_key_position(entries, key);
    let p = key_position(entries, key);
    let put = after_put(entries, capacity, key, value);
    assert forall|i: int| 0 <= i < put.len() implies (last_stored(calls, (#[trigger] put[i]).0)
        matches Some(v) && with_hit(put[i].1, true) == with_hit(v, true)) by {
        if i < put.len() - 1 {
            let a = if p < entries.len() {
                if i < p {
                    i
                } else {
                    i + 1
                }
            } else if entries.len() >= capacity && entries.len() > 0 {
                i + 1
            } else {
                i
            };
            assert(put[i] == entries[a]);
            if p < entries.len() {
                if a < p {
                    assert(entries[a].0 != entries[p].0);
                } else {
                    assert(entries[p].0 != entries[a].0);
                }
            }
            assert(entries[a].0 != key);
            assert(last_stored(calls, put[i].0) == last_stored(calls.drop_last(), entries[a].0));
        } else {
            assert(put[i] == (key, with_hit(value, false)));
        }
    }
}

proof fn lemma_cache_after(calls: Seq<CacheCall>, capacity: int)
    requires
        capacity >= 0,
    ensures
        keys_differ(cache_after(calls, capacity)),
        cache_after(calls, capacity).len() <= places(capacity),
        keys_by_use(calls, capacity).no_duplicates(),
        entry_keys(cache_after(calls, capacity)) == last_keys(
            keys_by_use(calls, capacity),
            places(capacity),
        ),
        entries_stored(cache_after(calls, capacity), calls),
    decreases calls.len(),
{
    let n = places(capacity);
    if calls.len() == 0 {
        assert(entry_keys(cache_after(calls, capacity)) =~= last_keys(
            keys_by_use(calls, capacity),
            n,
        ));
    } else {
        let front = calls.drop_last();
        lemma_cache_after(front, capacity);
        let entries = cache_after(front, capacity);
        let used = keys_by_use(front, capacity);
        match calls.last() {
            CacheCall::Put { key, value } => {
                law_cache_invariant(entries, capacity, key, value);
                lemma_keys_after(entries, capacity, key, value);
                lemma_moved_distinct(used, key);
                lemma_last_of_moved(used, key, n);
                lemma_stored_after_put(entries, calls, capacity, key, value);
            },
            CacheCall::Get { key } => {
                lemma_get_invariant(entries, key);
                lemma_entry_keys(entries, key);
                lemma_keys_after(entries, capacity, key, arbitrary());
                lemma_stored_after_get(entries, calls, key);
                if found_by_get(entries, key) is Some {
                    lemma_moved_distinct(used, key);
                    lemma_last_of_moved(used, key, n);
                }
            },
        }
    }
}

/// Whatever was stored and looked up before, a cache finds a bundle for a key exactly where
/// the key is among those used last, as many as the cache has places. It is the bundle that
/// was stored last for the key, marked as a hit, and the key then is the one used last.
/// Where it finds none nothing changes.
pub proof fn law_used_last_found(calls: Seq<CacheCall>, capacity: int, key: KeyView)
    requires
        capacity >= 0,
    ensures
        ({
            let entries = cache_after(calls, capacity);
            let used = keys_by_use(calls, capacity);
            &&& used.no_duplicates()
            &&& entry_keys(entries) == last_keys(used, places(capacity))
            &&& found_by_get(entries, key) is Some <==> last_keys(
                used,
                places(capacity),
            ).contains(key)
            &&& match found_by_get(entries, key) {
                Some(found) => {
                    &&& last_stored(calls, key) matches Some(stored)
                    &&& found == with_hit(stored, true)
                    &&& keys_by_use(calls.push(CacheCall::Get { key }), capacity) == moved_last(
                        used,
                        key,
                    )
                    &&& after_get(entries, key).last().0 == key
                },
                None => after_get(entries, key) == entries,
            }
        }),
{
    let entries = cache_after(calls, capacity);
    lemma_cache_after(calls, capacity);
    lemma_entry_keys(entries, key);
    lemma_key_position(entries, key);
    let p = key_position(entries, key);
    assert(calls.push(CacheCall::Get { key }).drop_last() =~= calls);
    if p < entries.len() {
        assert(entries[p].0 == key);
    }
}

/// An entry of the cache.
pub struct CacheEntry {
    pub key: BundleCacheKey,
    pub value: ContextBundleResponse,
}

/// The bundles built last, the one used longest ago first.
pub struct BundleCache {
    entries: Vec<CacheEntry>,
    capacity: usize,
}

impl View for BundleCache {
    type V = CacheView;

    closed spec fn view(&self) -> CacheView {
        Seq::new(self.entries@.len(), |i: int| (self.entries@[i].key@, self.entries@[i].value))
    }
}

impl BundleCache {
    /// How many bundles the cache keeps.
    pub closed spec fn limit(&self) -> usize {
        self.capacity
    }

    /// Every key is unique, and there are not too many.
    pub open spec fn well_formed(&self) -> bool {
        &&& keys_differ(self@)
        &&& self@.len() <= self.limit() || self@.len() <= 1
    }

    /// An empty cache.
    pub fn new(capacity: usize) -> (r: Self)
        ensures
            r@ == CacheView::empty(),
            r.limit() == capacity,
            r.well_formed(),
    {
        let r = BundleCache { entries: Vec::new(), capacity };
        assert(r@ =~= CacheView::empty());
        r
    }

    /// The position of a key, or the number of entries.
    fn position(&self, key: &BundleCacheKey) -> (r: usize)
        ensures
            r == key_position(self@, key@),
            r <= self.entries@.len(),
    {
        let mut i: usize = 0;
        while i < self.entries.len()
            invariant
                i <= self.entries.len(),
                forall|k: int| 0 <= k < i ==> self.entries@[k].key@ != key@,
            decreases self.entries.len() - i,
        {
            if self.entries[i].key.same_as(key) {
                proof {
                    assert(self@[i as int].0 == key@);
                    lemma_key_position_is(self@, key@, i as int);
                }
                return i;
            }
            i += 1;
        }
        proof {
            lemma_key_position_is(self@, key@, i as int);
        }
        i
    }

    /// Looks a bundle up; one that is found is marked as a hit and counts as used last.
    pub fn get(&mut self, key: &BundleCacheKey) -> (r: Option<&ContextBundleResponse>)
        requires
            old(self).well_formed(),
        ensures
            final(self)@ == after_get(old(self)@, key@),
            final(self).limit() == old(self).limit(),
            final(self).well_formed(),
            match r {
                Some(v) => found_by_get(old(self)@, key@) == Some(*v),
                None => found_by_get(old(self)@, key@) is None,
            },
    {
        let ghost before = self@;
        let p = self.position(key);
        proof {
            lemma_key_position(before, key@);
            lemma_get_invariant(before, key@);
        }
        if p == self.entries.len() {
            return None;
        }
        let mut entry = self.entries.remove(p);
        entry.value.usage.cache_hit = true;
        self.entries.push(entry);
        proof {
            assert(before[p as int].0 == key@);
            assert(entry.key@ == key@);
            assert(self@ =~= after_get(before, key@));
        }
        let n: usize = self.entries.len() - 1;
        assert(self@[n as int].1 == self.entries@[n as int].value);
        Some(&self.entries[n].value)
    }

    /// Stores a bundle. The bundle used longest ago leaves a full cache.
    pub fn put(&mut self, key: BundleCacheKey, value: ContextBundleResponse)
        requires
            old(self).well_formed(),
        ensures
            final(self)@ == after_put(old(self)@, old(self).limit() as int, key@, value),
            final(self).limit() == old(self).limit(),
            final(self).well_formed(),
    {
        let ghost before = self@;
        let mut value = value;
        let ghost given = value;
        value.usage.cache_hit = false;
        let p = self.position(&key);
        proof {
            law_cache_invariant(before, self.limit() as int, key@, given);
        }
        if p < self.entries.len() {
            let _old = self.entries.remove(p);
        } else if self.entries.len() >= self.capacity && self.entries.len() > 0 {
            let _oldest = self.entries.remove(0);
        }
        self.entries.push(CacheEntry { key, value });
        assert(self@ =~= after_put(before, self.limit() as int, key@, given));
    }
}

proof fn lemma_get_invariant(entries: CacheView, key: KeyView)
    requires
        keys_differ(entries),
    ensures
        keys_differ(after_get(entries, key)),
        after_get(entries, key).len() == entries.len(),
{
    lemma_key_position(entries, key);
    let p = key_position(entries, key);
    let got = after_get(entries, key);
    if p < entries.len() {
        assert forall|i: int, j: int| 0 <= i < j < got.len() implies (#[trigger] got[i]).0
            != (#[trigger] got[j]).0 by {
            let a = if i < p {
                i
            } else {
                i + 1
            };
            assert(got[i] == entries[a]);
            if j < got.len() - 1 {
                let b = if j < p {
                    j
                } else {
                    j + 1
                };
                assert(got[j] == entries[b]);
                assert(entries[a].0 != entries[b].0);
            } else {
                if a < p {
                    assert(entries[a].0 != entries[p].0);
                } else {
                    assert(entries[p].0 != entries[a].0);
                }
            }
        }
    }
}

// ---------------------------------------------------------------------------
// The response
// ---------------------------------------------------------------------------

/// Everything that was loaded for a bundle.
pub struct BundleParts {
    pub database_path: String,
    /// The stored record of the file.
    pub file: BundleFileMetadata,
    /// The text of the file, stored or read from disk.
    pub file_content: Option<String>,
    pub definitions: Vec<BundleDefinition>,
    pub focus_definition: Option<BundleDefinition>,
    pub related: Vec<BundleEdgeNeighbor>,
    /// The snippets chosen from the file, then those of its neighbours.
    pub snippets: Vec<BundleSnippet>,
    pub neighbor_snippets: Vec<BundleSnippet>,
    /// What was said while the snippets were collected.
    pub snippet_warnings: Vec<String>,
    pub latest_ingestion: Option<BundleIngestionSummary>,
    pub budget_tokens: usize,
    /// The request names a symbol, ranges or a focus line.
    pub targeted: bool,
    pub query: Option<String>,
    pub embedding_model: Option<String>,
    pub embedding_backend: Option<String>,
    pub embedding_latency_ms: Option<u128>,
}

/// The advice to name what is wanted.
pub open spec fn target_advice() -> Seq<char> {
    "No symbol, ranges, or focusLine provided; prefer targeting definitions to minimize context."@
}

/// The similarities of the snippets.
pub open spec fn similarities(snippets: Seq<BundleSnippet>) -> Seq<Option<Score>> {
    Seq::new(snippets.len(), |i: int| snippets[i].similarity)
}

/// The least and greatest similarity are those of the snippets, where one has any.
pub open spec fn similarity_range_of(
    low: Option<Score>,
    high: Option<Score>,
    snippets: Seq<BundleSnippet>,
) -> bool {
    low == least_of(similarities(snippets)) && high == greatest_of(similarities(snippets))
}

/// The snippets of the file and of its neighbours, without repetitions.
pub open spec fn gathered(parts: BundleParts) -> Seq<BundleSnippet> {
    parts.snippets@ + snippets_at(
        parts.neighbor_snippets@,
        new_positions(
            keys_of(parts.snippets@, parts.file.path@),
            keys_of(parts.neighbor_snippets@, parts.file.path@),
        ),
    )
}

/// The warnings of a bundle whose snippets were cut with the warnings `cut`.
pub open spec fn bundle_warnings(parts: BundleParts, cut: Seq<Seq<char>>) -> Seq<Seq<char>> {
    let said = missing_warnings(parts.definitions@.len() == 0, parts.file_content is None) + texts(
        parts.snippet_warnings@,
    ) + cut;
    if parts.targeted {
        said
    } else {
        said.push(target_advice())
    }
}

/// The diagnostics of a bundle, which are given where there is anything to say beyond
/// the name of the backend.
pub open spec fn diagnostics_of(
    d: Option<BundleDiagnostics>,
    parts: BundleParts,
    snippets: Seq<BundleSnippet>,
) -> bool {
    let worth = parts.query is Some || parts.embedding_model is Some || parts.embedding_latency_ms
        is Some || exists|i: int|
        0 <= i < snippets.len() && (#[trigger] snippets[i]).similarity is Some;
    &&& d is Some <==> worth
    &&& d is Some ==> {
        &&& d->0.query == parts.query
        &&& d->0.embedding_model == parts.embedding_model
        &&& d->0.embedding_backend == parts.embedding_backend
        &&& d->0.embedding_latency_ms == parts.embedding_latency_ms
        &&& similarity_range_of(d->0.similarity_min, d->0.similarity_max, snippets)
    }
}

/// The similarities of the snippets.
fn list_similarities(snippets: &Vec<BundleSnippet>) -> (r: Vec<Option<Score>>)
    ensures
        r@ == similarities(snippets@),
{
    let mut out: Vec<Option<Score>> = Vec::new();
    let mut i: usize = 0;
    while i < snippets.len()
        invariant
            i <= snippets.len(),
            out@ == similarities(snippets@).take(i as int),
        decreases snippets.len() - i,
    {
        out.push(snippets[i].similarity);
        assert(similarities(snippets@).take(i + 1) =~= similarities(snippets@).take(i as int).push(
            snippets@[i as int].similarity,
        ));
        i += 1;
    }
    assert(similarities(snippets@).take(i as int) =~= similarities(snippets@));
    out
}

/// Appends strings to strings.
fn append_texts(out: &mut Vec<String>, more: Vec<String>)
    ensures
        texts(final(out)@) == texts(old(out)@) + texts(more@),
{
    let ghost before = out@;
    let mut more = more;
    let ghost added = more@;
    out.append(&mut more);
    assert(texts(out@) =~= texts(before) + texts(added));
}

/// Puts the response together from what was loaded: the neighbours' snippets are added
/// to the file's own, all are cut to the budget, and the links, the brief, the warnings
/// and the diagnostics are drawn up.
pub fn assemble_bundle(parts: BundleParts) -> (r: ContextBundleResponse)
    requires
        definitions_tokens_of(parts.definitions@) <= usize::MAX,
    ensures
        r.database_path == parts.database_path,
        r.file == (BundleFileMetadata { brief: r.file.brief, ..parts.file }),
        text_of(r.file.brief) == (match parts.file_content {
            Some(c) => brief_of(c@),
            None => None,
        }),
        r.definitions == parts.definitions,
        r.focus_definition == parts.focus_definition,
        r.related == parts.related,
        r.latest_ingestion == parts.latest_ingestion,
        ({
            let cost = definitions_tokens_of(parts.definitions@);
            let all = gathered(parts);
            let (stages, used) = budget_plan(costs_of(all), cost as int, parts.budget_tokens as int);
            &&& kept_snippets(r.snippets@, all, stages)
            &&& all.len() > 0 ==> r.usage == cut_usage(
                cost as int,
                parts.budget_tokens as int,
                used,
                stages,
            )
            &&& texts(r.warnings@) == bundle_warnings(
                parts,
                if all.len() > 0 {
                    cut_warnings(cost, parts.budget_tokens as nat, used as nat, stages)
                } else {
                    Seq::empty()
                },
            )
        }),
        gathered(parts).len() == 0 ==> r.usage == (BundleUsageStats {
            definitions_tokens: definitions_tokens_of(parts.definitions@) as usize,
            snippet_tokens: 0,
            used_tokens: definitions_tokens_of(parts.definitions@) as usize,
            budget_tokens: parts.budget_tokens,
            remaining_tokens: unused(
                parts.budget_tokens as int,
                definitions_tokens_of(parts.definitions@) as int,
            ) as usize,
            omitted_snippets: 0,
            excerpt_snippets: 0,
            summary_snippets: 0,
            cache_hit: false,
        }),
        link_views(r.quick_links@) == first_links(
            all_links(parts.file.path@, parts.definitions@, parts.related@, parts.focus_definition),
        ),
        diagnostics_of(r.diagnostics, parts, r.snippets@),
{
    let ghost given = parts;
    let BundleParts {
        database_path,
        file,
        file_content,
        definitions,
        focus_definition,
        related,
        snippets,
        neighbor_snippets,
        snippet_warnings,
        latest_ingestion,
        budget_tokens,
        targeted,
        query,
        embedding_model,
        embedding_backend,
        embedding_latency_ms,
    } = parts;
    let all = append_neighbor_snippets(snippets, neighbor_snippets, file.path.as_str());
    assert(all@ == gathered(given));
    let (kept, usage, cut) = trim_snippets_to_budget(all, definitions.as_slice(), budget_tokens);
    proof {
        if cut@.len() == 0 {
            assert(texts(cut@) =~= Seq::<Seq<char>>::empty());
        }
    }
    let mut warnings = gather_warnings(definitions.as_slice(), as_text(&file_content));
    append_texts(&mut warnings, snippet_warnings);
    append_texts(&mut warnings, cut);
    if !targeted {
        push_text(
            &mut warnings,
            "No symbol, ranges, or focusLine provided; prefer targeting definitions to minimize context.".to_owned(),
        );
    }
    let quick_links = build_quick_links(
        file.path.as_str(),
        definitions.as_slice(),
        related.as_slice(),
        focus_definition.as_ref(),
    );
    let brief: Option<String> = match &file_content {
        Some(c) => build_file_brief(c.as_str()),
        None => None,
    };
    let found = list_similarities(&kept);
    let (low, high): (Option<Score>, Option<Score>) = match score_range(found.as_slice()) {
        Some((a, b)) => (Some(a), Some(b)),
        None => (None, None),
    };
    proof {
        law_score_range(found@);
        if low is Some {
            let i = choose|i: int| 0 <= i < found@.len() && (#[trigger] found@[i]) is Some;
            assert(kept@[i].similarity is Some);
        } else {
            assert forall|i: int| 0 <= i < kept@.len() implies (
            #[trigger] kept@[i]).similarity is None by {
                assert(found@[i] is None);
            }
        }
    }
    let worth = query.is_some() || embedding_model.is_some() || embedding_latency_ms.is_some()
        || low.is_some();
    let diagnostics: Option<BundleDiagnostics> = if worth {
        Some(
            BundleDiagnostics {
                query,
                embedding_model,
                embedding_backend,
                embedding_latency_ms,
                similarity_min: low,
                similarity_max: high,
            },
        )
    } else {
        None
    };
    let mut file = file;
    file.brief = brief;
    ContextBundleResponse {
        database_path,
        file,
        definitions,
        focus_definition,
        related,
        snippets: kept,
        latest_ingestion,
        warnings,
        quick_links,
        usage,
        diagnostics,
    }
}

/// The key of a bundle request: the ranges in order, the query trimmed.
pub fn bundle_cache_key(
    database_path: String,
    file_path: String,
    file_hash: String,
    symbol: Option<SymbolSelector>,
    ranges: Vec<LineRange>,
    focus_line: Option<u32>,
    max_snippets: usize,
    budget_tokens: usize,
    max_neighbors: usize,
    query: Option<String>,
) -> (r: BundleCacheKey)
    ensures
        r.database_path == database_path,
        r.file_path == file_path,
        r.file_hash == file_hash,
        r.symbol == symbol,
        ranges_ordered(r.ranges@),
        r.ranges@.to_multiset() == ranges@.to_multiset(),
        r.focus_line == focus_line,
        r.max_snippets == max_snippets,
        r.budget_tokens == budget_tokens,
        r.max_neighbors == max_neighbors,
        text_of(r.query_fingerprint) == query_text(text_of(query)),
{
    BundleCacheKey {
        database_path,
        file_path,
        file_hash,
        symbol,
        ranges: sort_ranges(ranges),
        focus_line,
        max_snippets,
        budget_tokens,
        max_neighbors,
        query_fingerprint: clean_query(query),
    }
}

// ---------------------------------------------------------------------------
// What holds of a request and of a bundle
// ---------------------------------------------------------------------------

/// Nobody gets more than the maximum, whoever asks for less gets what was asked for, and
/// only who asks for nothing gets the default: 3 of at most 10 snippets, and 12 of at most
/// 50 neighbours.
pub proof fn law_limits(requested: Option<u32>)
    ensures
        ({
            let snippets = limited(requested, MAX_SNIPPET_LIMIT, DEFAULT_SNIPPET_LIMIT);
            let neighbors = limited(requested, MAX_NEIGHBOR_LIMIT, DEFAULT_NEIGHBOR_LIMIT);
            &&& snippets <= 10
            &&& neighbors <= 50
            &&& requested matches Some(v) ==> v <= 10 ==> snippets == v
            &&& requested matches Some(v) ==> v >= 10 ==> snippets == 10
            &&& requested matches Some(v) ==> v <= 50 ==> neighbors == v
            &&& requested matches Some(v) ==> v >= 50 ==> neighbors == 50
            &&& requested is None ==> snippets == 3 && neighbors == 12
        }),
{
}

/// A requested budget is kept to whatever the environment says; the number that the
/// environment says, with white space around it or not, holds where nothing is requested;
/// else it is 3000.
pub proof fn law_budget_choice(requested: Option<u32>, configured: Option<Seq<char>>)
    ensures
        requested matches Some(v) ==> budget_of(requested, configured) == v,
        budget_of(None, None) == 3000,
        configured matches Some(text) ==> unsigned_of(trimmed(text), 0xffff_ffff) is None
            ==> budget_of(None, configured) == 3000,
        configured matches Some(text) ==> unsigned_of(trimmed(text), 0xffff_ffff) matches Some(v)
            ==> budget_of(None, configured) == v,
{
}

/// Ordered ranges never go back: neither by their first lines nor, where those are the same,
/// by their last.
pub proof fn law_ranges_ascend(s: Seq<LineRange>, i: int, j: int)
    requires
        ranges_ordered(s),
        0 <= i < j < s.len(),
    ensures
        s[i].start_line <= s[j].start_line,
        s[i].start_line == s[j].start_line ==> s[i].end_line <= s[j].end_line,
{
    assert(range_le(s[i], s[j]));
}

/// Requests share a stored bundle only where they ask for the same: the same state of the
/// same file in the same database, with the same symbol, ranges, focus, limits and query.
pub proof fn law_keys_tell_apart(a: BundleCacheKey, b: BundleCacheKey)
    ensures
        a@ == b@ ==> a.database_path@ == b.database_path@ && a.file_path@ == b.file_path@
            && a.file_hash@ == b.file_hash@ && a.ranges@ == b.ranges@ && a.focus_line
            == b.focus_line && a.max_snippets == b.max_snippets && a.budget_tokens
            == b.budget_tokens && a.max_neighbors == b.max_neighbors,
        a@ == b@ ==> (a.symbol is Some <==> b.symbol is Some),
        a@ == b@ ==> (a.symbol matches Some(x) ==> b.symbol matches Some(y) ==> x.name@ == y.name@
            && (x.kind is Some <==> y.kind is Some) && (x.kind matches Some(k) ==> y.kind matches Some(
            l,
        ) ==> k@ == l@)),
        a@ == b@ ==> (a.query_fingerprint is Some <==> b.query_fingerprint is Some),
        a@ == b@ ==> (a.query_fingerprint matches Some(x) ==> b.query_fingerprint matches Some(y)
            ==> x@ == y@),
{
}

/// A blank query is none, and white space around a query does not make another one of it.
pub proof fn law_query_text(query: Seq<char>)
    ensures
        trimmed(query).len() == 0 ==> query_text(Some(query)) is None,
        trimmed(query).len() > 0 ==> query_text(Some(query)) == Some(trimmed(query)),
        query_text(None) is None,
{
}

/// A bundle offers all snippets of the file first, in their order, then those of the
/// neighbours: each of these stands there once, unless a snippet of the file or an
/// earlier one of a neighbour says the same.
pub proof fn law_gathered(parts: BundleParts)
    ensures
        parts.snippets@.is_prefix_of(gathered(parts)),
        forall|i: int|
            0 <= i < parts.neighbor_snippets@.len() ==> keys_of(
                gathered(parts),
                parts.file.path@,
            ).contains(key_of(#[trigger] parts.neighbor_snippets@[i], parts.file.path@)),
        forall|i: int, j: int|
            parts.snippets@.len() <= j < gathered(parts).len() && 0 <= i < j ==> key_of(
                #[trigger] gathered(parts)[i],
                parts.file.path@,
            ) != key_of(#[trigger] gathered(parts)[j], parts.file.path@),
        forall|j: int|
            parts.snippets@.len() <= j < gathered(parts).len() ==> parts.neighbor_snippets@.contains(
                #[trigger] gathered(parts)[j],
            ),
{
    let path = parts.file.path@;
    let own = parts.snippets@;
    let far = parts.neighbor_snippets@;
    let existing = keys_of(own, path);
    let keys = keys_of(far, path);
    let at = new_positions(existing, keys);
    let all = gathered(parts);
    law_new_positions(existing, keys);
    assert(own =~= all.subrange(0, own.len() as int));
    assert forall|j: int| own.len() <= j < all.len() implies #[trigger] all[j] == far[at[j
        - own.len()]] && 0 <= at[j - own.len()] < far.len() && !existing.contains(
        keys[at[j - own.len()]],
    ) by {
        let p = at[j - own.len()];
        assert(0 <= p < keys.len());
    }
    assert forall|i: int| 0 <= i < far.len() implies keys_of(all, path).contains(
        key_of(#[trigger] far[i], path),
    ) by {
        assert(keys[i] == key_of(far[i], path));
        if existing.contains(keys[i]) {
            let k = choose|k: int| 0 <= k < existing.len() && existing[k] == keys[i];
            assert(all[k] == own[k]);
            assert(keys_of(all, path)[k] == keys[i]);
        } else {
            let k = choose|k: int| 0 <= k < at.len() && keys[#[trigger] at[k]] == keys[i];
            assert(all[own.len() + k] == far[at[k]]);
            assert(keys_of(all, path)[own.len() + k] == keys[i]);
        }
    }
    assert forall|i: int, j: int|
        own.len() <= j < all.len() && 0 <= i < j implies key_of(
        #[trigger] all[i],
        path,
    ) != key_of(#[trigger] all[j], path) by {
        let p = at[j - own.len()];
        assert(keys[p] == key_of(all[j], path));
        if i < own.len() {
            assert(all[i] == own[i]);
            assert(existing[i] == key_of(own[i], path));
        } else {
            let q = at[i - own.len()];
            assert(keys[q] == key_of(all[i], path));
            assert(at[i - own.len()] < at[j - own.len()]);
        }
    }
}

/// The advice to name what is wanted is given exactly to who did not, and behind everything
/// else that is said.
pub proof fn law_advice(parts: BundleParts, cut: Seq<Seq<char>>)
    ensures
        !parts.targeted ==> bundle_warnings(parts, cut).last()
            == "No symbol, ranges, or focusLine provided; prefer targeting definitions to minimize context."@,
        bundle_warnings(parts, cut).len() == missing_warnings(
            parts.definitions@.len() == 0,
            parts.file_content is None,
        ).len() + parts.snippet_warnings@.len() + cut.len() + (if parts.targeted {
            0int
        } else {
            1
        }),
        forall|w: Seq<char>| cut.contains(w) ==> #[trigger] bundle_warnings(parts, cut).contains(w),
{
    let said = missing_warnings(parts.definitions@.len() == 0, parts.file_content is None) + texts(
        parts.snippet_warnings@,
    );
    let all = bundle_warnings(parts, cut);
    assert forall|w: Seq<char>| cut.contains(w) implies #[trigger] all.contains(w) by {
        let i = choose|i: int| 0 <= i < cut.len() && cut[i] == w;
        assert(all[said.len() + i] == w);
    }
}

/// A bundle has diagnostics where there was a query, an embedding, or a similarity, and they
/// tell the least and the greatest similarity of its snippets.
pub proof fn law_diagnostics(
    d: Option<BundleDiagnostics>,
    parts: BundleParts,
    snippets: Seq<BundleSnippet>,
    i: int,
)
    requires
        diagnostics_of(d, parts, snippets),
    ensures
        parts.query is Some || parts.embedding_model is Some || parts.embedding_latency_ms is Some
            ==> d is Some,
        0 <= i < snippets.len() && snippets[i].similarity is Some ==> d is Some,
        d matches Some(b) ==> b.query == parts.query && b.embedding_model == parts.embedding_model
            && b.embedding_backend == parts.embedding_backend && b.embedding_latency_ms
            == parts.embedding_latency_ms,
        d matches Some(b) ==> b.similarity_min == least_of(
            Seq::new(snippets.len(), |k: int| snippets[k].similarity),
        ) && b.similarity_max == greatest_of(
            Seq::new(snippets.len(), |k: int| snippets[k].similarity),
        ),
        parts.query is None && parts.embedding_model is None && parts.embedding_latency_ms is None
            && (forall|k: int|
            0 <= k < snippets.len() ==> (#[trigger] snippets[k]).similarity is None) ==> d is None,
{
    assert(similarities(snippets) =~= Seq::new(
        snippets.len(),
        |k: int| snippets[k].similarity,
    ));
}

} // verus!
