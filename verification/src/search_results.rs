//! From candidates to an answer: vectors, ranking, repetitions, and what is said.

use vstd::prelude::*;
use crate::bundle_graph::text_of;
use crate::decimal::{decimal, push_decimal, push_signed_decimal, push_wide_decimal, signed_decimal};
use crate::pieces::{join, joined, texts};
use crate::score::{greater, is_nan, less_than, push_score, score_key, score_text, Score};
use crate::search::{
    ChunkRow, ContextGoal, PendingMatch, QueryIntent, SearchResultCoordinate, SearchSource,
    SemanticSearchMatch, SemanticSearchResponse, SummaryMode, DEFAULT_EMBEDDING_MODEL,
    MAX_BRIEF_CONTENT_CHARS, MAX_BRIEF_CONTEXT_CHARS,
};
use crate::search_lexical::{law_filter_asks, match_of, passes, passes_filter, SearchFilter};
use crate::search_query::{
    goals_contains, QueryAnalysis, KEY_0_35, KEY_0_4, KEY_0_65,
};
use crate::search_text::{
    context_of, ellipsized, extract_context, extract_focus_span, focus_of, opt_lines,
    trim_with_ellipsis,
};
use crate::text::{same_text, trim_str, trimmed};

verus! {

// ---------------------------------------------------------------------------
// Vectors
// ---------------------------------------------------------------------------

/// The number whose four bytes, the low byte first, stand at position `i` of a blob.
pub open spec fn number_at(blob: Seq<u8>, i: int) -> Score {
    Score {
        bits: (blob[4 * i] + 0x100 * blob[4 * i + 1] + 0x1_0000 * blob[4 * i + 2] + 0x100_0000
            * blob[4 * i + 3]) as u32,
    }
}

/// The numbers of a blob; none where its length is no multiple of four.
pub open spec fn numbers_of(blob: Seq<u8>) -> Seq<Score> {
    if blob.len() % 4 == 0 {
        Seq::new((blob.len() / 4) as nat, |i: int| number_at(blob, i))
    } else {
        Seq::empty()
    }
}

/// The numbers of a blob; none where its length is no multiple of four.
pub fn blob_to_vec(blob: &[u8]) -> (r: Vec<Score>)
    ensures
        r@ == numbers_of(blob@),
{
    let mut out: Vec<Score> = Vec::new();
    if blob.len() % 4 != 0 {
        assert(out@ =~= numbers_of(blob@));
        return out;
    }
    let size: usize = blob.len();
    let count: usize = size / 4;
    let mut i: usize = 0;
    while i < count
        invariant
            i <= count,
            size == blob@.len(),
            count == blob@.len() / 4,
            blob@.len() % 4 == 0,
            out@ == numbers_of(blob@).take(i as int),
        decreases count - i,
    {
        let at: usize = 4 * i;
        let bits: u32 = blob[at] as u32 + 0x100 * blob[at + 1] as u32 + 0x1_0000 * blob[at
            + 2] as u32 + 0x100_0000 * blob[at + 3] as u32;
        out.push(Score { bits });
        assert(out@ =~= numbers_of(blob@).take(i + 1));
        i += 1;
    }
    assert(numbers_of(blob@).take(i as int) =~= numbers_of(blob@));
    out
}

/// The bytes of a number, the low byte first.
pub open spec fn bytes_of(s: Score) -> Seq<u8> {
    seq![
        (s.bits % 0x100) as u8,
        ((s.bits / 0x100) % 0x100) as u8,
        ((s.bits / 0x1_0000) % 0x100) as u8,
        (s.bits / 0x100_0000) as u8,
    ]
}

/// The bytes of the numbers, one after the other.
pub open spec fn blob_of(v: Seq<Score>) -> Seq<u8>
    decreases v.len(),
{
    if v.len() == 0 {
        Seq::empty()
    } else {
        blob_of(v.drop_last()) + bytes_of(v.last())
    }
}

/// The bytes of a vector.
pub fn embedding_to_bytes(v: &[Score]) -> (r: Vec<u8>)
    ensures
        r@ == blob_of(v@),
{
    let mut out: Vec<u8> = Vec::new();
    let mut i: usize = 0;
    assert(v@.take(0) =~= Seq::<Score>::empty());
    while i < v.len()
        invariant
            i <= v.len(),
            out@ == blob_of(v@.take(i as int)),
        decreases v.len() - i,
    {
        let bits: u32 = v[i].bits;
        let ghost before = out@;
        out.push((bits % 0x100) as u8);
        out.push(((bits / 0x100) % 0x100) as u8);
        out.push(((bits / 0x1_0000) % 0x100) as u8);
        out.push((bits / 0x100_0000) as u8);
        proof {
            assert(v@.take(i + 1).drop_last() =~= v@.take(i as int));
            assert(v@.take(i + 1).last() == v@[i as int]);
            assert(out@ =~= before + bytes_of(v@[i as int]));
        }
        i += 1;
    }
    assert(v@.take(i as int) =~= v@);
    out
}

proof fn lemma_blob_len(v: Seq<Score>)
    ensures
        blob_of(v).len() == 4 * v.len(),
    decreases v.len(),
{
    if v.len() > 0 {
        lemma_blob_len(v.drop_last());
    }
}

proof fn lemma_number_of_bytes(b: u32)
    ensures
        b % 0x100 + 0x100 * ((b / 0x100) % 0x100) + 0x1_0000 * ((b / 0x1_0000) % 0x100)
            + 0x100_0000 * (b / 0x100_0000) == b,
        b / 0x100_0000 < 0x100,
{
    assert(b % 0x100 + 0x100 * ((b / 0x100) % 0x100) + 0x1_0000 * ((b / 0x1_0000) % 0x100)
        + 0x100_0000 * (b / 0x100_0000) == b && b / 0x100_0000 < 0x100) by (bit_vector);
}

proof fn lemma_last_number(front: Seq<u8>, s: Score, n: int)
    requires
        front.len() == 4 * n,
    ensures
        number_at(front + bytes_of(s), n) == s,
{
    let blob = front + bytes_of(s);
    lemma_number_of_bytes(s.bits);
    assert(blob[4 * n] == bytes_of(s)[0]);
    assert(blob[4 * n + 1] == bytes_of(s)[1]);
    assert(blob[4 * n + 2] == bytes_of(s)[2]);
    assert(blob[4 * n + 3] == bytes_of(s)[3]);
}

proof fn lemma_earlier_number(front: Seq<u8>, more: Seq<u8>, i: int)
    requires
        0 <= 4 * i,
        4 * i + 4 <= front.len(),
    ensures
        number_at(front + more, i) == number_at(front, i),
{
}

/// Reading a stored vector gives back the vector that was written.
pub proof fn law_vector_round_trip(v: Seq<Score>)
    ensures
        numbers_of(blob_of(v)) == v,
    decreases v.len(),
{
    lemma_blob_len(v);
    if v.len() > 0 {
        let front = v.drop_last();
        law_vector_round_trip(front);
        lemma_blob_len(front);
        let n = v.len() - 1;
        assert forall|i: int| 0 <= i < v.len() implies number_at(blob_of(v), i) == v[i] by {
            if i < n {
                lemma_earlier_number(blob_of(front), bytes_of(v.last()), i);
                assert(numbers_of(blob_of(front))[i] == front[i]);
            } else {
                lemma_last_number(blob_of(front), v.last(), n);
            }
        }
    }
    assert(numbers_of(blob_of(v)) =~= v);
}

// ---------------------------------------------------------------------------
// Hits seen before
// ---------------------------------------------------------------------------

/// A result's place, by its text.
pub open spec fn place_of(c: SearchResultCoordinate) -> (Seq<char>, i32) {
    (c.path@, c.chunk_index)
}

/// The places of results.
pub open spec fn places(cs: Seq<SearchResultCoordinate>) -> Seq<(Seq<char>, i32)> {
    Seq::new(cs.len(), |i: int| place_of(cs[i]))
}

/// Whether a place is listed.
pub fn contains_place(cs: &Vec<SearchResultCoordinate>, path: &str, chunk_index: i32) -> (r: bool)
    ensures
        r == places(cs@).contains((path@, chunk_index)),
{
    let mut i: usize = 0;
    while i < cs.len()
        invariant
            i <= cs.len(),
            forall|j: int| 0 <= j < i ==> place_of(cs@[j]) != (path@, chunk_index),
        decreases cs.len() - i,
    {
        if cs[i].chunk_index == chunk_index && same_text(cs[i].path.as_str(), path) {
            assert(places(cs@)[i as int] == (path@, chunk_index));
            return true;
        }
        i += 1;
    }
    proof {
        if places(cs@).contains((path@, chunk_index)) {
            let j = choose|j: int|
                0 <= j < places(cs@).len() && places(cs@)[j] == (path@, chunk_index);
            assert(place_of(cs@[j]) == (path@, chunk_index));
        }
    }
    false
}

/// Adds a place.
pub fn push_place(cs: &mut Vec<SearchResultCoordinate>, path: &str, chunk_index: i32)
    ensures
        places(final(cs)@) == places(old(cs)@).push((path@, chunk_index)),
{
    let ghost before = cs@;
    cs.push(SearchResultCoordinate { path: path.to_owned(), chunk_index });
    assert(places(cs@) =~= places(before).push((path@, chunk_index)));
}

/// A stored chunk as a candidate: `None` where its place was seen before, it does not
/// pass the filter, or it has no vector. `score` is the similarity of its vector to the
/// query. A candidate's place counts as seen.
pub fn chunk_to_pending(
    chunk: &ChunkRow,
    score: Score,
    filter: &SearchFilter,
    seen_hits: &mut Vec<SearchResultCoordinate>,
) -> (r: Option<PendingMatch>)
    ensures
        r is Some <==> (!places(old(seen_hits)@).contains((chunk.path@, chunk.chunk_index))
            && passes(*filter, *chunk) && numbers_of(chunk.embedding_blob@).len() > 0),
        r is Some ==> match_of(r->0, *chunk, score, SearchSource::Embedding) && places(
            final(seen_hits)@,
        ) == places(old(seen_hits)@).push((chunk.path@, chunk.chunk_index)),
        r is None ==> final(seen_hits)@ == old(seen_hits)@,
        r matches Some(m) ==> (filter.path_contains matches Some(part) ==> exists|i: int|
            0 <= i && i + part@.len() <= m.path@.len() && #[trigger] m.path@.subrange(
                i,
                i + part@.len(),
            ) == part@),
        r matches Some(m) ==> (filter.path_prefix matches Some(prefix) ==> prefix@.is_prefix_of(
            m.path@,
        )),
        r matches Some(m) ==> (filter.classification matches Some(kind) ==> m.classification
            == kind),
        r matches Some(m) ==> (filter.language matches Some(wanted) ==> m.language matches Some(
            own,
        ) && crate::text::lowercase(own@) == wanted@),
{
    proof {
        law_filter_asks(*filter, *chunk);
    }
    if contains_place(seen_hits, chunk.path.as_str(), chunk.chunk_index) {
        return None;
    }
    if !passes_filter(filter, chunk) {
        return None;
    }
    let vector = blob_to_vec(chunk.embedding_blob.as_slice());
    if vector.len() == 0 {
        return None;
    }
    push_place(seen_hits, chunk.path.as_str(), chunk.chunk_index);
    Some(crate::search_lexical::make_match(chunk, score, SearchSource::Embedding))
}

/// A candidate of the embeddings is as the caller asked for: its path holds the wanted text
/// and begins with the wanted prefix, and it is of the wanted kind and language. It shows
/// the stored chunk as it is, with the score that its vector got.
pub proof fn law_candidate_wanted(
    m: PendingMatch,
    chunk: ChunkRow,
    score: Score,
    f: SearchFilter,
)
    requires
        passes(f, chunk),
        match_of(m, chunk, score, SearchSource::Embedding),
    ensures
        f.path_contains matches Some(part) ==> exists|i: int|
            0 <= i && i + part@.len() <= m.path@.len() && #[trigger] m.path@.subrange(
                i,
                i + part@.len(),
            ) == part@,
        f.path_prefix matches Some(prefix) ==> prefix@.is_prefix_of(m.path@),
        f.classification matches Some(kind) ==> m.classification == kind,
        f.language matches Some(wanted) ==> m.language matches Some(own)
            && crate::text::lowercase(own@) == wanted@,
        m.id == chunk.id && m.path == chunk.path && m.chunk_index == chunk.chunk_index,
        m.content == chunk.content && m.line_start == chunk.line_start && m.line_end
            == chunk.line_end,
        m.score == score,
        m.source == SearchSource::Embedding,
{
    law_filter_asks(f, chunk);
}

/// The matches whose place is neither in `seen` nor that of an earlier match.
pub open spec fn unseen(seen: Seq<(Seq<char>, i32)>, ms: Seq<PendingMatch>) -> Seq<PendingMatch>
    decreases ms.len(),
{
    if ms.len() == 0 {
        Seq::empty()
    } else {
        let before = unseen(seen, ms.drop_last());
        let place = (ms.last().path@, ms.last().chunk_index);
        if seen.contains(place) || (exists|k: int|
            0 <= k < before.len() && (
            (#[trigger] before[k]).path@,
            before[k].chunk_index,
        ) == place) {
            before
        } else {
            before.push(ms.last())
        }
    }
}

/// The places of matches.
pub open spec fn match_places(ms: Seq<PendingMatch>) -> Seq<(Seq<char>, i32)> {
    Seq::new(ms.len(), |i: int| (ms[i].path@, ms[i].chunk_index))
}

/// Leaves out the matches whose place was seen before; the places of the others count as
/// seen.
pub fn drop_seen_matches(
    matches: Vec<PendingMatch>,
    seen_hits: &mut Vec<SearchResultCoordinate>,
) -> (r: Vec<PendingMatch>)
    ensures
        r@ == unseen(places(old(seen_hits)@), matches@),
        places(final(seen_hits)@) == places(old(seen_hits)@) + match_places(r@),
{
    let mut out: Vec<PendingMatch> = Vec::new();
    let ghost seen = places(seen_hits@);
    let ghost all = matches@;
    let ghost mut n: int = 0;
    assert(all.take(0) =~= Seq::<PendingMatch>::empty());
    assert(seen + match_places(out@) =~= seen);
    for m in it: matches
        invariant
            it.seq() == all,
            n == it.index(),
            out@ == unseen(seen, all.take(n)),
            places(seen_hits@) == seen + match_places(out@),
    {
        let ghost before = out@;
        let ghost place = (m.path@, m.chunk_index);
        proof {
            assert(all.take(n + 1).drop_last() =~= all.take(n));
            assert(all.take(n + 1).last() == m);
            let listed = seen + match_places(before);
            assert(listed.contains(place) <==> (seen.contains(place) || exists|k: int|
                0 <= k < before.len() && (
                (#[trigger] before[k]).path@,
                before[k].chunk_index,
            ) == place)) by {
                if listed.contains(place) {
                    let k = choose|k: int| 0 <= k < listed.len() && listed[k] == place;
                    if k < seen.len() {
                        assert(seen[k] == place);
                    } else {
                        let b = before[k - seen.len()];
                        assert((b.path@, b.chunk_index) == place);
                    }
                }
                if seen.contains(place) {
                    let k = choose|k: int| 0 <= k < seen.len() && seen[k] == place;
                    assert(listed[k] == place);
                }
                if exists|k: int|
                    0 <= k < before.len() && (
                    (#[trigger] before[k]).path@,
                    before[k].chunk_index,
                ) == place {
                    let k = choose|k: int|
                        0 <= k < before.len() && (
                        (#[trigger] before[k]).path@,
                        before[k].chunk_index,
                    ) == place;
                    assert(listed[seen.len() + k] == place);
                }
            }
        }
        if !contains_place(seen_hits, m.path.as_str(), m.chunk_index) {
            push_place(seen_hits, m.path.as_str(), m.chunk_index);
            out.push(m);
            assert(places(seen_hits@) =~= seen + match_places(out@));
        }
        proof {
            n = n + 1;
        }
    }
    assert(all.take(n) =~= all);
    out
}

/// No match at a place that was seen before is returned.
pub proof fn law_seen_hits_left_out(seen: Seq<(Seq<char>, i32)>, ms: Seq<PendingMatch>)
    ensures
        forall|k: int|
            0 <= k < unseen(seen, ms).len() ==> !seen.contains(
                ((#[trigger] unseen(seen, ms)[k]).path@, unseen(seen, ms)[k].chunk_index),
            ),
        unseen(seen, ms).len() <= ms.len(),
    decreases ms.len(),
{
    if ms.len() > 0 {
        law_seen_hits_left_out(seen, ms.drop_last());
    }
}

// ---------------------------------------------------------------------------
// Ranking
// ---------------------------------------------------------------------------

/// The first position whose score is greater than `score`, or the number of matches.
pub open spec fn first_greater(ms: Seq<PendingMatch>, score: Score) -> int
    decreases ms.len(),
{
    if ms.len() == 0 || greater(ms[0].score, score) {
        0
    } else {
        1 + first_greater(ms.drop_first(), score)
    }
}

/// The matches with a candidate put in before the first that scores more; where there are
/// then more than `limit`, the first leaves.
pub open spec fn top_with(ms: Seq<PendingMatch>, c: PendingMatch, limit: int) -> Seq<PendingMatch> {
    if limit == 0 {
        ms
    } else {
        let all = ms.insert(first_greater(ms, c.score), c);
        if all.len() > limit {
            all.drop_first()
        } else {
            all
        }
    }
}

/// No match scores more than a later one.
pub open spec fn ascending(ms: Seq<PendingMatch>) -> bool {
    forall|i: int, j: int|
        0 <= i < j < ms.len() ==> !greater((#[trigger] ms[i]).score, (#[trigger] ms[j]).score)
}

proof fn lemma_first_greater(ms: Seq<PendingMatch>, score: Score)
    ensures
        0 <= first_greater(ms, score) <= ms.len(),
        first_greater(ms, score) < ms.len() ==> greater(
            ms[first_greater(ms, score)].score,
            score,
        ),
        forall|i: int|
            0 <= i < first_greater(ms, score) ==> !greater((#[trigger] ms[i]).score, score),
    decreases ms.len(),
{
    if ms.len() == 0 || greater(ms[0].score, score) {
    } else {
        lemma_first_greater(ms.drop_first(), score);
        assert forall|i: int| 0 <= i < first_greater(ms, score) implies !greater(
            (#[trigger] ms[i]).score,
            score,
        ) by {
            if i > 0 {
                assert(ms.drop_first()[i - 1] == ms[i]);
            }
        }
    }
}

/// Putting a candidate in keeps the order and the limit. Where a match leaves, it scores no
/// more than any that stays.
pub proof fn law_top_matches(ms: Seq<PendingMatch>, c: PendingMatch, limit: int)
    requires
        ascending(ms),
        ms.len() <= limit,
    ensures
        ascending(top_with(ms, c, limit)),
        top_with(ms, c, limit).len() <= limit,
        limit > 0 && ms.len() < limit ==> top_with(ms, c, limit).contains(c) && top_with(
            ms,
            c,
            limit,
        ).len() == ms.len() + 1,
        limit > 0 && ms.len() == limit ==> ({
            let all = ms.insert(first_greater(ms, c.score), c);
            top_with(ms, c, limit) == all.drop_first() && forall|i: int|
                0 <= i < top_with(ms, c, limit).len() ==> !greater(
                    all[0].score,
                    (#[trigger] top_with(ms, c, limit)[i]).score,
                )
        }),
{
    let p = first_greater(ms, c.score);
    lemma_first_greater(ms, c.score);
    let all = ms.insert(p, c);
    assert forall|i: int, j: int| 0 <= i < j < all.len() implies !greater(
        (#[trigger] all[i]).score,
        (#[trigger] all[j]).score,
    ) by {
        if i < p {
            assert(all[i] == ms[i]);
            if j > p {
                assert(all[j] == ms[j - 1]);
                if i < j - 1 {
                    assert(!greater(ms[i].score, ms[j - 1].score));
                }
            } else if j < p {
                assert(all[j] == ms[j]);
            }
        } else if i == p {
            assert(all[j] == ms[j - 1]);
            if j - 1 > p {
                assert(!greater(ms[p].score, ms[j - 1].score));
            }
        } else {
            assert(all[i] == ms[i - 1] && all[j] == ms[j - 1]);
        }
    }
    assert(all[p] == c);
    if all.len() > limit && limit > 0 {
        let rest = all.drop_first();
        assert forall|i: int, j: int| 0 <= i < j < rest.len() implies !greater(
            (#[trigger] rest[i]).score,
            (#[trigger] rest[j]).score,
        ) by {
            assert(rest[i] == all[i + 1] && rest[j] == all[j + 1]);
        }
        assert forall|i: int| 0 <= i < rest.len() implies !greater(
            all[0].score,
            (#[trigger] rest[i]).score,
        ) by {
            assert(rest[i] == all[i + 1]);
        }
    }
}

/// Puts a candidate among the best matches, the least first.
pub fn insert_into_top_matches(
    matches: &mut Vec<PendingMatch>,
    candidate: PendingMatch,
    limit: usize,
)
    ensures
        final(matches)@ == top_with(old(matches)@, candidate, limit as int),
{
    if limit == 0 {
        return;
    }
    let ghost before = matches@;
    let score = candidate.score;
    let mut i: usize = 0;
    assert(before.skip(0) =~= before);
    while i < matches.len() && !matches[i].score.exceeds(&score)
        invariant
            i <= matches.len(),
            matches@ == before,
            first_greater(before, score) == i + first_greater(before.skip(i as int), score),
        decreases matches.len() - i,
    {
        assert(before.skip(i as int).drop_first() =~= before.skip(i + 1));
        i += 1;
    }
    proof {
        if i < before.len() {
            assert(before.skip(i as int)[0] == before[i as int]);
        }
    }
    matches.insert(i, candidate);
    if matches.len() > limit {
        let _least = matches.remove(0);
        assert(matches@ =~= before.insert(i as int, candidate).drop_first());
    }
}

/// The best of the candidates, the least first.
pub open spec fn top_of(candidates: Seq<PendingMatch>, limit: int) -> Seq<PendingMatch>
    decreases candidates.len(),
{
    if candidates.len() == 0 {
        Seq::empty()
    } else {
        top_with(top_of(candidates.drop_last(), limit), candidates.last(), limit)
    }
}

/// However many candidates there are, at most `limit` of them stay, in the order of their
/// scores.
pub proof fn law_top_of(candidates: Seq<PendingMatch>, limit: int)
    requires
        limit >= 0,
    ensures
        ascending(top_of(candidates, limit)),
        top_of(candidates, limit).len() <= limit,
    decreases candidates.len(),
{
    if candidates.len() > 0 {
        law_top_of(candidates.drop_last(), limit);
        law_top_matches(top_of(candidates.drop_last(), limit), candidates.last(), limit);
    }
}

/// The best of the candidates, the greatest first.
pub fn rank_candidates(candidates: Vec<PendingMatch>, limit: usize) -> (r: Vec<PendingMatch>)
    ensures
        r@ == top_of(candidates@, limit as int).reverse(),
{
    let mut top: Vec<PendingMatch> = Vec::new();
    let ghost all = candidates@;
    let ghost mut n: int = 0;
    assert(all.take(0) =~= Seq::<PendingMatch>::empty());
    for c in it: candidates
        invariant
            it.seq() == all,
            n == it.index(),
            top@ == top_of(all.take(n), limit as int),
    {
        proof {
            assert(all.take(n + 1).drop_last() =~= all.take(n));
            assert(all.take(n + 1).last() == c);
        }
        insert_into_top_matches(&mut top, c, limit);
        proof {
            n = n + 1;
        }
    }
    assert(all.take(n) =~= all);
    let ghost sorted = top@;
    let mut out: Vec<PendingMatch> = Vec::new();
    while top.len() > 0
        invariant
            top@ == sorted.take(top@.len() as int),
            top@.len() <= sorted.len(),
            out@ == sorted.skip(top@.len() as int).reverse(),
        decreases top.len(),
    {
        let ghost n = top@.len() as int;
        match top.pop() {
            Some(m) => {
                out.push(m);
                proof {
                    assert(m == sorted[n - 1]);
                    assert(sorted.skip(n - 1) =~= seq![m] + sorted.skip(n));
                    assert(out@ =~= sorted.skip(n - 1).reverse());
                    assert(top@ =~= sorted.take(n - 1));
                }
            },
            None => {
                assert(false);
            },
        }
    }
    assert(sorted.skip(0) =~= sorted);
    out
}

// ---------------------------------------------------------------------------
// Repetitions
// ---------------------------------------------------------------------------

/// The text that tells symbols apart.
pub open spec fn symbol_key_of(
    path: Seq<char>,
    identifier: Option<Seq<char>>,
    symbol: Option<Seq<char>>,
) -> Option<Seq<char>> {
    match identifier {
        Some(v) => Some(path + "::identifier::"@ + v),
        None => match symbol {
            Some(v) => Some(path + "::symbol::"@ + v),
            None => None,
        },
    }
}

/// The text that tells symbols apart.
pub fn build_symbol_key(path: &str, identifier: &Option<String>, symbol: &Option<String>) -> (r:
    Option<String>)
    ensures
        text_of(r) == symbol_key_of(path@, text_of(*identifier), text_of(*symbol)),
{
    match identifier {
        Some(v) => {
            let mut out = path.to_owned();
            out.append("::identifier::");
            out.append(v.as_str());
            Some(out)
        },
        None => match symbol {
            Some(v) => {
                let mut out = path.to_owned();
                out.append("::symbol::");
                out.append(v.as_str());
                Some(out)
            },
            None => None,
        },
    }
}

/// The text that tells a match's symbol apart.
pub open spec fn match_symbol(m: PendingMatch) -> Option<Seq<char>> {
    symbol_key_of(m.path@, text_of(m.identifier), text_of(m.symbol))
}

/// Two matches are the same chunk or the same symbol.
pub open spec fn repeats(a: PendingMatch, b: PendingMatch) -> bool {
    a.id@ == b.id@ || (match_symbol(a) is Some && match_symbol(a) == match_symbol(b))
}

/// The matches that repeat none before them, at most `limit`.
pub open spec fn distinct_matches(ms: Seq<PendingMatch>, limit: int) -> Seq<PendingMatch>
    decreases ms.len(),
{
    if ms.len() == 0 {
        Seq::empty()
    } else {
        let before = distinct_matches(ms.drop_last(), limit);
        if before.len() < limit && !(exists|k: int|
            0 <= k < before.len() && repeats(ms.last(), #[trigger] before[k])) {
            before.push(ms.last())
        } else {
            before
        }
    }
}

/// No two of the matches kept are the same chunk or the same symbol.
pub proof fn law_no_repetition(ms: Seq<PendingMatch>, limit: int)
    requires
        limit >= 0,
    ensures
        distinct_matches(ms, limit).len() <= limit,
        forall|j: int, k: int|
            0 <= j < k < distinct_matches(ms, limit).len() ==> !repeats(
                #[trigger] distinct_matches(ms, limit)[k],
                #[trigger] distinct_matches(ms, limit)[j],
            ),
    decreases ms.len(),
{
    if ms.len() > 0 {
        law_no_repetition(ms.drop_last(), limit);
    }
}

/// Whether a match repeats one of those kept.
pub fn should_keep_match(kept: &Vec<PendingMatch>, pending: &PendingMatch) -> (r: bool)
    ensures
        r == !(exists|k: int| 0 <= k < kept@.len() && repeats(*pending, #[trigger] kept@[k])),
{
    let symbol = build_symbol_key(pending.path.as_str(), &pending.identifier, &pending.symbol);
    let mut i: usize = 0;
    while i < kept.len()
        invariant
            i <= kept.len(),
            text_of(symbol) == match_symbol(*pending),
            forall|k: int| 0 <= k < i ==> !repeats(*pending, #[trigger] kept@[k]),
        decreases kept.len() - i,
    {
        let other = &kept[i];
        if same_text(other.id.as_str(), pending.id.as_str()) {
            assert(repeats(*pending, kept@[i as int]));
            return false;
        }
        if let Some(own) = &symbol {
            let theirs = build_symbol_key(other.path.as_str(), &other.identifier, &other.symbol);
            if let Some(key) = theirs {
                if same_text(own.as_str(), key.as_str()) {
                    assert(repeats(*pending, kept@[i as int]));
                    return false;
                }
            }
        }
        i += 1;
    }
    true
}

/// The lexical matches, then the others, without repetitions and at most `limit`.
pub fn combine_matches(
    lexical: Vec<PendingMatch>,
    embedding: Vec<PendingMatch>,
    limit: usize,
) -> (r: Vec<PendingMatch>)
    ensures
        r@ == distinct_matches(lexical@ + embedding@, limit as int),
        r@.len() <= limit,
{
    let mut all_matches = lexical;
    let mut more = embedding;
    let ghost all = all_matches@ + more@;
    all_matches.append(&mut more);
    assert(all_matches@ =~= all);
    let mut out: Vec<PendingMatch> = Vec::new();
    let ghost mut n: int = 0;
    assert(all.take(0) =~= Seq::<PendingMatch>::empty());
    for m in it: all_matches
        invariant
            it.seq() == all,
            n == it.index(),
            out@ == distinct_matches(all.take(n), limit as int),
            out@.len() <= limit,
    {
        proof {
            assert(all.take(n + 1).drop_last() =~= all.take(n));
            assert(all.take(n + 1).last() == m);
        }
        if out.len() < limit && should_keep_match(&out, &m) {
            out.push(m);
        }
        proof {
            n = n + 1;
        }
    }
    assert(all.take(n) =~= all);
    out
}

// ---------------------------------------------------------------------------
// Results
// ---------------------------------------------------------------------------

/// The text that a match shows: its lines of the file, or the stored text where those are
/// unknown or blank.
pub open spec fn shown_text(content: Seq<char>, focus: Option<Seq<char>>) -> Seq<char> {
    match focus {
        Some(f) => if trimmed(f).len() == 0 {
            content
        } else {
            f
        },
        None => content,
    }
}

/// A text as an answer in that mode shows it.
pub open spec fn in_mode(text: Seq<char>, mode: SummaryMode, max: usize) -> Seq<char> {
    match mode {
        SummaryMode::Brief => ellipsized(text, max as int),
        SummaryMode::Full => text,
    }
}

/// An optional text as an answer in that mode shows it.
pub open spec fn opt_in_mode(text: Option<Seq<char>>, mode: SummaryMode, max: usize) -> Option<
    Seq<char>,
> {
    match text {
        Some(t) => Some(in_mode(t, mode, max)),
        None => None,
    }
}

/// Cuts an optional text as the mode asks.
fn context_in_mode(text: Option<String>, mode: SummaryMode) -> (r: Option<String>)
    ensures
        text_of(r) == opt_in_mode(text_of(text), mode, MAX_BRIEF_CONTEXT_CHARS),
{
    match text {
        Some(t) => match mode {
            SummaryMode::Brief => Some(trim_with_ellipsis(t.as_str(), MAX_BRIEF_CONTEXT_CHARS)),
            SummaryMode::Full => Some(t),
        },
        None => None,
    }
}

/// The result that a match gives. `lines` are the lines of its file, and `normalized` is
/// its score between zero and one.
pub fn finish_match(
    pending: PendingMatch,
    lines: Option<&Vec<String>>,
    mode: SummaryMode,
    before_lines: usize,
    after_lines: usize,
    normalized: Score,
) -> (r: SemanticSearchMatch)
    ensures
        r.path == pending.path,
        r.chunk_index == pending.chunk_index,
        r.score == pending.score,
        r.normalized_score == normalized,
        r.confidence == normalized,
        r.language == pending.language,
        r.classification == pending.classification,
        r.content@ == in_mode(
            shown_text(
                pending.content@,
                focus_of(opt_lines(lines), pending.line_start, pending.line_end),
            ),
            mode,
            MAX_BRIEF_CONTENT_CHARS,
        ),
        r.embedding_model == pending.embedding_model,
        r.byte_start == pending.byte_start,
        r.byte_end == pending.byte_end,
        r.line_start == pending.line_start,
        r.line_end == pending.line_end,
        ({
            let (b, a) = context_of(
                opt_lines(lines),
                pending.line_start,
                pending.line_end,
                before_lines as int,
                after_lines as int,
            );
            text_of(r.context_before) == opt_in_mode(b, mode, MAX_BRIEF_CONTEXT_CHARS) && text_of(
                r.context_after,
            ) == opt_in_mode(a, mode, MAX_BRIEF_CONTEXT_CHARS)
        }),
        r.source == pending.source,
        r.summary == pending.summary,
        r.symbol == pending.symbol,
        r.identifier == pending.identifier,
        r.source_type == pending.source_type,
        r.metadata == pending.metadata,
{
    let (before, after) = extract_context(
        lines,
        pending.line_start,
        pending.line_end,
        before_lines,
        after_lines,
    );
    let focus = extract_focus_span(lines, pending.line_start, pending.line_end);
    let base: String = match focus {
        Some(f) => {
            let t = trim_str(f.as_str());
            if t.as_str().is_empty() {
                pending.content
            } else {
                f
            }
        },
        None => pending.content,
    };
    let content: String = match mode {
        SummaryMode::Brief => trim_with_ellipsis(base.as_str(), MAX_BRIEF_CONTENT_CHARS),
        SummaryMode::Full => base,
    };
    SemanticSearchMatch {
        path: pending.path,
        chunk_index: pending.chunk_index,
        score: pending.score,
        normalized_score: normalized,
        language: pending.language,
        classification: pending.classification,
        content,
        embedding_model: pending.embedding_model,
        byte_start: pending.byte_start,
        byte_end: pending.byte_end,
        line_start: pending.line_start,
        line_end: pending.line_end,
        context_before: context_in_mode(before, mode),
        context_after: context_in_mode(after, mode),
        source: pending.source,
        summary: pending.summary,
        symbol: pending.symbol,
        identifier: pending.identifier,
        source_type: pending.source_type,
        metadata: pending.metadata,
        confidence: normalized,
    }
}

// ---------------------------------------------------------------------------
// What is said
// ---------------------------------------------------------------------------

/// The greatest confidence of the results, by its key; zero where there are none. A
/// confidence that is no number counts for nothing.
pub open spec fn top_confidence(rs: Seq<SemanticSearchMatch>) -> int
    decreases rs.len(),
{
    if rs.len() == 0 {
        0
    } else {
        let before = top_confidence(rs.drop_last());
        if !is_nan(rs.last().confidence) && score_key(rs.last().confidence) > before {
            score_key(rs.last().confidence)
        } else {
            before
        }
    }
}

/// A question to the caller with the reason why it is asked.
pub type Clarification = (Seq<char>, Seq<char>);

/// `s` with `c` behind it where `condition` holds.
pub open spec fn ask_if(s: Seq<Clarification>, condition: bool, c: Clarification) -> Seq<
    Clarification,
> {
    if condition {
        s.push(c)
    } else {
        s
    }
}

/// What the caller is asked to make clear.
pub open spec fn clarifications(
    query: Seq<char>,
    analysis: QueryAnalysis,
    goals: Seq<ContextGoal>,
    results: Seq<SemanticSearchMatch>,
    result_limit: int,
    ran_lexical: bool,
) -> Seq<Clarification> {
    let none = results.len() == 0;
    let top = top_confidence(results);
    let a = ask_if(
        Seq::empty(),
        none,
        (
            "No indexed snippets matched '"@ + query
                + "'. Try naming the file or insert unique keywords."@,
            "no_results"@,
        ),
    );
    let b = ask_if(
        a,
        !none && top < KEY_0_35,
        (
            "Top matches are low confidence—specify the framework, module, or identifier you're targeting."@,
            "low_confidence"@,
        ),
    );
    let c = ask_if(
        b,
        !none && results.len() < result_limit - 1 && result_limit >= 4 && top < KEY_0_65,
        (
            "Few results matched. Narrow the scope by adding a directory, language filter, or symbol name."@,
            "sparse_results"@,
        ),
    );
    let debugging = goals.contains(ContextGoal::Debugging) && ran_lexical && none;
    let d = ask_if(
        c,
        debugging,
        (
            "Paste the exact error message or stack trace so the index can find the failing code."@,
            "debug_goal_no_hits"@,
        ),
    );
    let e = ask_if(
        d,
        !debugging && goals.contains(ContextGoal::ApiDiscovery) && greater(
            analysis.embedding_weight,
            analysis.lexical_weight,
        ),
        (
            "Mention the target SDK, module, or protocol to surface precise API definitions."@,
            "api_goal_disambiguation"@,
        ),
    );
    ask_if(
        e,
        e.len() == 0 && analysis.primary_intent == QueryIntent::Hybrid && less_than(
            analysis.confidence,
            KEY_0_4 as int,
        ),
        (
            "Clarify whether you're searching for code, documentation, or call graphs so the engine can prioritize appropriately."@,
            "hybrid_intent"@,
        ),
    )
}

/// The questions and the reasons list the clarifications.
pub open spec fn lists_clarifications(
    prompts: Seq<String>,
    reasons: Seq<String>,
    cs: Seq<Clarification>,
) -> bool {
    &&& prompts.len() == cs.len()
    &&& reasons.len() == cs.len()
    &&& forall|k: int| 0 <= k < cs.len() ==> (#[trigger] prompts[k])@ == cs[k].0
    &&& forall|k: int| 0 <= k < cs.len() ==> (#[trigger] reasons[k])@ == cs[k].1
}

/// Adds a question with its reason.
fn ask(prompts: &mut Vec<String>, reasons: &mut Vec<String>, prompt: String, reason: &str)
    ensures
        forall|cs: Seq<Clarification>|
            lists_clarifications(old(prompts)@, old(reasons)@, cs) ==> #[trigger]
            lists_clarifications(
                final(prompts)@,
                final(reasons)@,
                cs.push((prompt@, reason@)),
            ),
        final(prompts)@.len() == old(prompts)@.len() + 1,
{
    prompts.push(prompt);
    reasons.push(reason.to_owned());
}

/// The greatest confidence of the results, by its key.
fn find_top_confidence(results: &[SemanticSearchMatch]) -> (r: i64)
    ensures
        r == top_confidence(results@),
{
    let mut top: i64 = 0;
    let mut i: usize = 0;
    assert(results@.take(0) =~= Seq::<SemanticSearchMatch>::empty());
    while i < results.len()
        invariant
            i <= results.len(),
            top == top_confidence(results@.take(i as int)),
        decreases results.len() - i,
    {
        assert(results@.take(i + 1).drop_last() =~= results@.take(i as int));
        assert(results@.take(i + 1).last() == results@[i as int]);
        if !results[i].confidence.is_nan() {
            let key: i64 = results[i].confidence.key();
            if key > top {
                top = key;
            }
        }
        i += 1;
    }
    assert(results@.take(i as int) =~= results@);
    top
}

/// What the caller is asked to make clear, and why.
pub fn build_clarification_prompts(
    query: &str,
    analysis: &QueryAnalysis,
    goals: &[ContextGoal],
    results: &[SemanticSearchMatch],
    result_limit: usize,
    ran_lexical: bool,
) -> (r: (Vec<String>, Vec<String>))
    ensures
        lists_clarifications(
            r.0@,
            r.1@,
            clarifications(
                query@,
                *analysis,
                goals@,
                results@,
                result_limit as int,
                ran_lexical,
            ),
        ),
{
    let mut prompts: Vec<String> = Vec::new();
    let mut reasons: Vec<String> = Vec::new();
    let ghost mut cs: Seq<Clarification> = Seq::empty();
    let none = results.len() == 0;
    let top: i64 = find_top_confidence(results);
    if none {
        let mut p = "No indexed snippets matched '".to_owned();
        p.append(query);
        p.append("'. Try naming the file or insert unique keywords.");
        proof {
            cs = cs.push((p@, "no_results"@));
        }
        ask(&mut prompts, &mut reasons, p, "no_results");
    }
    if !none && top < KEY_0_35 {
        let p = "Top matches are low confidence—specify the framework, module, or identifier you're targeting.".to_owned();
        proof {
            cs = cs.push((p@, "low_confidence"@));
        }
        ask(&mut prompts, &mut reasons, p, "low_confidence");
    }
    if !none && result_limit >= 4 && results.len() < result_limit - 1 && top < KEY_0_65 {
        let p = "Few results matched. Narrow the scope by adding a directory, language filter, or symbol name.".to_owned();
        proof {
            cs = cs.push((p@, "sparse_results"@));
        }
        ask(&mut prompts, &mut reasons, p, "sparse_results");
    }
    let debugging = goals_contains(goals, ContextGoal::Debugging) && ran_lexical && none;
    if debugging {
        let p = "Paste the exact error message or stack trace so the index can find the failing code.".to_owned();
        proof {
            cs = cs.push((p@, "debug_goal_no_hits"@));
        }
        ask(&mut prompts, &mut reasons, p, "debug_goal_no_hits");
    }
    if !debugging && goals_contains(goals, ContextGoal::ApiDiscovery)
        && analysis.embedding_weight.exceeds(&analysis.lexical_weight) {
        let p = "Mention the target SDK, module, or protocol to surface precise API definitions.".to_owned();
        proof {
            cs = cs.push((p@, "api_goal_disambiguation"@));
        }
        ask(&mut prompts, &mut reasons, p, "api_goal_disambiguation");
    }
    if prompts.len() == 0 && analysis.primary_intent == QueryIntent::Hybrid
        && analysis.confidence.falls_short(KEY_0_4) {
        let p = "Clarify whether you're searching for code, documentation, or call graphs so the engine can prioritize appropriately.".to_owned();
        proof {
            cs = cs.push((p@, "hybrid_intent"@));
        }
        ask(&mut prompts, &mut reasons, p, "hybrid_intent");
    }
    assert(cs == clarifications(
        query@,
        *analysis,
        goals@,
        results@,
        result_limit as int,
        ran_lexical,
    ));
    assert(lists_clarifications(prompts@, reasons@, cs));
    (prompts, reasons)
}

/// How many results were found by their words.
pub open spec fn lexical_count(rs: Seq<SemanticSearchMatch>) -> nat
    decreases rs.len(),
{
    if rs.len() == 0 {
        0
    } else {
        lexical_count(rs.drop_last()) + if rs.last().source == SearchSource::Lexical {
            1nat
        } else {
            0nat
        }
    }
}

/// How many results were found by their words.
pub fn count_lexical(results: &[SemanticSearchMatch]) -> (r: usize)
    ensures
        r == lexical_count(results@),
        r <= results@.len(),
{
    let mut n: usize = 0;
    let mut i: usize = 0;
    assert(results@.take(0) =~= Seq::<SemanticSearchMatch>::empty());
    while i < results.len()
        invariant
            i <= results.len(),
            n <= i,
            n == lexical_count(results@.take(i as int)),
        decreases results.len() - i,
    {
        assert(results@.take(i + 1).drop_last() =~= results@.take(i as int));
        assert(results@.take(i + 1).last() == results@[i as int]);
        if results[i].source == SearchSource::Lexical {
            n += 1;
        }
        i += 1;
    }
    assert(results@.take(i as int) =~= results@);
    n
}

/// Where a match stands: its file, with its first line where that is known.
pub open spec fn location_of(path: Seq<char>, line: Option<i64>) -> Seq<char> {
    match line {
        Some(v) => if v > 0 {
            path + "#L"@ + signed_decimal(v as int)
        } else {
            path
        },
        None => path,
    }
}

/// Where a match stands.
pub fn match_location(path: &str, line: Option<i64>) -> (r: String)
    ensures
        r@ == location_of(path@, line),
{
    let mut out = path.to_owned();
    if let Some(v) = line {
        if v > 0 {
            out.append("#L");
            push_signed_decimal(&mut out, v);
        }
    }
    out
}

/// The line that sums a search up.
pub open spec fn search_summary(p: SemanticSearchResponse) -> Seq<char> {
    if p.evaluated_chunks == 0 {
        "Semantic search evaluated 0 chunks and returned 0 match(es)."@
    } else {
        let model = match p.embedding_model {
            Some(m) => m@,
            None => DEFAULT_EMBEDDING_MODEL@,
        };
        let hits = lexical_count(p.results@);
        let s0 = "Semantic search scanned "@ + decimal(p.evaluated_chunks as nat)
            + " chunk(s) and returned "@ + decimal(p.results@.len()) + " match(es) (model "@ + model
            + ")."@;
        let s1 = if hits > 0 {
            s0 + " "@ + decimal(hits) + " lexical match(es) promoted ahead of semantic ranks."@
        } else {
            s0
        };
        let s2 = if p.results@.len() > 0 {
            let top = p.results@[0];
            s1 + " Top hit: "@ + location_of(top.path@, top.line_start) + " (confidence "@
                + score_text(top.confidence) + ")."@
        } else {
            s1
        };
        let s3 = if p.suggested_tools@.len() > 0 {
            let t = p.suggested_tools@[0];
            s2 + " Suggested follow-up: run "@ + t.tool@ + " with focus on "@ + (
            match t.description {
                Some(d) => d@,
                None => "selected search match"@,
            }) + " (score "@ + score_text(t.score) + ")."@
        } else {
            s2
        };
        let s4 = if p.clarification_prompts@.len() > 0 {
            s3 + " Clarify: "@ + joined(texts(p.clarification_prompts@), " "@)
        } else {
            s3
        };
        match p.diagnostics {
            Some(d) => {
                let s5 = match d.embedding_latency_ms {
                    Some(ms) => s4 + " Embedding latency: "@ + decimal(ms as nat) + " ms."@,
                    None => s4,
                };
                let s6 = match d.lexical_latency_ms {
                    Some(ms) => s5 + " Lexical latency: "@ + decimal(ms as nat) + " ms."@,
                    None => s5,
                };
                s6 + " Total wall time: "@ + decimal(d.total_latency_ms as nat) + " ms."@
            },
            None => s4,
        }
    }
}

/// The line that sums a search up.
pub fn summarize_semantic_search(payload: &SemanticSearchResponse) -> (r: String)
    ensures
        r@ == search_summary(*payload),
{
    if payload.evaluated_chunks == 0 {
        return "Semantic search evaluated 0 chunks and returned 0 match(es).".to_owned();
    }
    let hits: usize = count_lexical(payload.results.as_slice());
    let mut out = "Semantic search scanned ".to_owned();
    push_decimal(&mut out, payload.evaluated_chunks);
    out.append(" chunk(s) and returned ");
    push_decimal(&mut out, payload.results.len() as u64);
    out.append(" match(es) (model ");
    match &payload.embedding_model {
        Some(m) => out.append(m.as_str()),
        None => out.append(DEFAULT_EMBEDDING_MODEL),
    }
    out.append(").");
    if hits > 0 {
        out.append(" ");
        push_decimal(&mut out, hits as u64);
        out.append(" lexical match(es) promoted ahead of semantic ranks.");
    }
    if payload.results.len() > 0 {
        let top = &payload.results[0];
        out.append(" Top hit: ");
        out.append(match_location(top.path.as_str(), top.line_start).as_str());
        out.append(" (confidence ");
        push_score(&mut out, top.confidence);
        out.append(").");
    }
    if payload.suggested_tools.len() > 0 {
        let t = &payload.suggested_tools[0];
        out.append(" Suggested follow-up: run ");
        out.append(t.tool.as_str());
        out.append(" with focus on ");
        match &t.description {
            Some(d) => out.append(d.as_str()),
            None => out.append("selected search match"),
        }
        out.append(" (score ");
        push_score(&mut out, t.score);
        out.append(").");
    }
    if payload.clarification_prompts.len() > 0 {
        out.append(" Clarify: ");
        out.append(join(payload.clarification_prompts.as_slice(), " ").as_str());
    }
    if let Some(d) = &payload.diagnostics {
        if let Some(ms) = d.embedding_latency_ms {
            out.append(" Embedding latency: ");
            push_wide_decimal(&mut out, ms);
            out.append(" ms.");
        }
        if let Some(ms) = d.lexical_latency_ms {
            out.append(" Lexical latency: ");
            push_wide_decimal(&mut out, ms);
            out.append(" ms.");
        }
        out.append(" Total wall time: ");
        push_wide_decimal(&mut out, d.total_latency_ms);
        out.append(" ms.");
    }
    out
}

// ---------------------------------------------------------------------------
// What holds of an answer
// ---------------------------------------------------------------------------

/// The bytes of a stored number stand with the low byte first.
#[verifier::spinoff_prover]
pub proof fn law_low_byte_first(blob: Seq<u8>, i: int)
    requires
        blob.len() % 4 == 0,
        0 <= i < blob.len() / 4,
    ensures
        numbers_of(blob).len() * 4 == blob.len(),
        numbers_of(blob)[i].bits % 0x100 == blob[4 * i],
        (numbers_of(blob)[i].bits / 0x100) % 0x100 == blob[4 * i + 1],
        (numbers_of(blob)[i].bits / 0x1_0000) % 0x100 == blob[4 * i + 2],
        numbers_of(blob)[i].bits / 0x100_0000 == blob[4 * i + 3],
{
    let a = blob[4 * i] as int;
    let b = blob[4 * i + 1] as int;
    let c = blob[4 * i + 2] as int;
    let d = blob[4 * i + 3] as int;
    lemma_four_bytes(a, b, c, d);
    assert(numbers_of(blob)[i] == number_at(blob, i));
    assert(numbers_of(blob)[i].bits == a + 0x100 * b + 0x1_0000 * c + 0x100_0000 * d);
}

proof fn lemma_four_bytes(a: int, b: int, c: int, d: int)
    requires
        0 <= a < 0x100,
        0 <= b < 0x100,
        0 <= c < 0x100,
        0 <= d < 0x100,
    ensures
        ({
            let n = a + 0x100 * b + 0x1_0000 * c + 0x100_0000 * d;
            &&& 0 <= n < 0x1_0000_0000
            &&& n % 0x100 == a
            &&& (n / 0x100) % 0x100 == b
            &&& (n / 0x1_0000) % 0x100 == c
            &&& n / 0x100_0000 == d
        }),
{
    let n = a + 0x100 * b + 0x1_0000 * c + 0x100_0000 * d;
    assert(n / 0x100 == b + 0x100 * c + 0x1_0000 * d);
    assert(n / 0x1_0000 == c + 0x100 * d);
    assert(n / 0x100_0000 == d);
}

/// The bytes that do not make whole numbers make none.
pub proof fn law_broken_blob(blob: Seq<u8>)
    requires
        blob.len() % 4 != 0,
    ensures
        numbers_of(blob).len() == 0,
{
}

/// No match is lost by looking for what was seen: each is kept, or its place was seen
/// before, or a kept match stands at the same place.
pub proof fn law_unseen_complete(seen: Seq<(Seq<char>, i32)>, ms: Seq<PendingMatch>, i: int)
    requires
        0 <= i < ms.len(),
    ensures
        seen.contains((ms[i].path@, ms[i].chunk_index)) || exists|k: int|
            0 <= k < unseen(seen, ms).len() && (#[trigger] unseen(seen, ms)[k]).path@ == ms[i].path@
                && unseen(seen, ms)[k].chunk_index == ms[i].chunk_index,
        forall|j: int, k: int|
            0 <= j < k < unseen(seen, ms).len() ==> (
            (#[trigger] unseen(seen, ms)[j]).path@,
            unseen(seen, ms)[j].chunk_index,
        ) != ((#[trigger] unseen(seen, ms)[k]).path@, unseen(seen, ms)[k].chunk_index),
    decreases ms.len(),
{
    let front = ms.drop_last();
    let before = unseen(seen, front);
    let all = unseen(seen, ms);
    if front.len() > 0 {
        law_unseen_complete(
            seen,
            front,
            if i < front.len() {
                i
            } else {
                0
            },
        );
    }
    if i < front.len() {
        assert(front[i] == ms[i]);
        if !seen.contains((ms[i].path@, ms[i].chunk_index)) {
            let k = choose|k: int|
                0 <= k < before.len() && (#[trigger] before[k]).path@ == ms[i].path@
                    && before[k].chunk_index == ms[i].chunk_index;
            assert(all[k] == before[k]);
        }
    } else if all.len() > before.len() {
        assert(all[before.len() as int] == ms[i]);
    }
    assert forall|j: int, k: int| 0 <= j < k < all.len() implies (
    (#[trigger] all[j]).path@,
    all[j].chunk_index,
) != ((#[trigger] all[k]).path@, all[k].chunk_index) by {
        assert(all[j] == before[j]);
        if k < before.len() {
            assert(all[k] == before[k]);
        }
    }
}

/// The best candidates are kept: one that is not kept was left out for want of room only, and
/// scores no more than any that is kept.
pub proof fn law_top_are_best(candidates: Seq<PendingMatch>, limit: int, i: int)
    requires
        limit > 0,
        0 <= i < candidates.len(),
        forall|j: int|
            0 <= j < candidates.len() ==> !is_nan((#[trigger] candidates[j]).score),
    ensures
        top_of(candidates, limit).contains(candidates[i]) || (top_of(candidates, limit).len()
            == limit && forall|k: int|
            0 <= k < limit ==> !greater(
                candidates[i].score,
                (#[trigger] top_of(candidates, limit)[k]).score,
            )),
        forall|k: int|
            0 <= k < top_of(candidates, limit).len() ==> candidates.contains(
                #[trigger] top_of(candidates, limit)[k],
            ),
    decreases candidates.len(),
{
    let front = candidates.drop_last();
    let c = candidates.last();
    let ms = top_of(front, limit);
    let top = top_of(candidates, limit);
    law_top_of(front, limit);
    law_top_matches(ms, c, limit);
    lemma_first_greater(ms, c.score);
    let p = first_greater(ms, c.score);
    let all = ms.insert(p, c);
    if front.len() > 0 {
        assert forall|j: int| 0 <= j < front.len() implies !is_nan((#[trigger] front[j]).score) by {
            assert(front[j] == candidates[j]);
        }
        law_top_are_best(
            front,
            limit,
            if i < front.len() {
                i
            } else {
                0
            },
        );
    }
    assert forall|k: int| 0 <= k < ms.len() implies candidates.contains(#[trigger] ms[k])
        && !is_nan(ms[k].score) by {
        assert(front.contains(ms[k]));
        let j = choose|j: int| 0 <= j < front.len() && front[j] == ms[k];
        assert(candidates[j] == ms[k]);
    }
    assert forall|k: int| 0 <= k < all.len() implies candidates.contains(#[trigger] all[k])
        && !is_nan(all[k].score) by {
        if k < p {
            assert(all[k] == ms[k]);
        } else if k == p {
            assert(candidates[candidates.len() - 1] == c);
        } else {
            assert(all[k] == ms[k - 1]);
        }
    }
    assert forall|k: int| 0 <= k < top.len() implies candidates.contains(#[trigger] top[k]) by {
        if all.len() > limit {
            assert(top[k] == all[k + 1]);
        }
    }
    let x = candidates[i];
    if i < front.len() {
        assert(front[i] == x);
    }
    if i == front.len() || ms.contains(x) {
        let k = if i == front.len() {
            p
        } else {
            let q = choose|q: int| 0 <= q < ms.len() && ms[q] == x;
            if q < p {
                q
            } else {
                q + 1
            }
        };
        assert(all[k] == x);
        if all.len() > limit {
            if k > 0 {
                assert(top[k - 1] == x);
            }
        } else {
            assert(top[k] == x);
        }
    } else {
        assert(ms.len() == limit);
        assert forall|k: int| 0 <= k < limit implies !greater(x.score, (#[trigger] top[k]).score) by {
            assert(top[k] == all[k + 1]);
            if k + 1 < p {
                assert(all[k + 1] == ms[k + 1]);
            } else if k + 1 == p {
                assert(all[k + 1] == c);
                assert(!greater(ms[0].score, c.score));
                assert(!greater(x.score, ms[0].score));
            } else {
                assert(all[k + 1] == ms[k]);
            }
        }
    }
}

/// Two matches count as the same where they are the same chunk, or where the same file gives
/// them the same identifier, or no identifier but the same symbol.
pub proof fn law_repeats(a: PendingMatch, b: PendingMatch)
    ensures
        a.id@ == b.id@ ==> repeats(a, b),
        a.path@ == b.path@ && (a.identifier matches Some(x) && b.identifier matches Some(y) && x@
            == y@) ==> repeats(a, b),
        a.path@ == b.path@ && a.identifier is None && b.identifier is None && (
        a.symbol matches Some(x) && b.symbol matches Some(y) && x@ == y@) ==> repeats(a, b),
        a.id@ != b.id@ && a.identifier is None && a.symbol is None ==> !repeats(a, b),
        a.id@ != b.id@ && a.path@ == b.path@ && repeats(a, b) ==> (a.identifier is Some
            <==> b.identifier is Some),
        a.id@ != b.id@ && a.path@ == b.path@ && repeats(a, b) ==> (a.identifier matches Some(x)
            ==> b.identifier matches Some(y) ==> x@ == y@),
        a.id@ != b.id@ && a.path@ == b.path@ && repeats(a, b) && a.identifier is None ==> (
        a.symbol matches Some(x) ==> b.symbol matches Some(y) ==> x@ == y@),
{
    reveal_strlit("::identifier::");
    reveal_strlit("::symbol::");
    let path = a.path@;
    if a.id@ != b.id@ && a.path@ == b.path@ && repeats(a, b) {
        let key = match_symbol(a)->0;
        assert(key == match_symbol(b)->0);
        assert(key[path.len() + 2int] == if a.identifier is Some {
            'i'
        } else {
            's'
        });
        assert(key[path.len() + 2int] == if b.identifier is Some {
            'i'
        } else {
            's'
        });
        if let Some(x) = a.identifier {
            let y = b.identifier->0;
            assert(key.skip(path.len() + 14int) =~= x@);
            assert(key.skip(path.len() + 14int) =~= y@);
        } else {
            let x = a.symbol->0;
            let y = b.symbol->0;
            assert(key.skip(path.len() + 10int) =~= x@);
            assert(key.skip(path.len() + 10int) =~= y@);
        }
    }
}

/// No match is lost by looking for repetitions while there is room: each is kept, or it
/// repeats one that is kept.
pub proof fn law_distinct_complete(ms: Seq<PendingMatch>, limit: int, i: int)
    requires
        0 <= i < ms.len(),
        distinct_matches(ms, limit).len() < limit,
    ensures
        exists|k: int|
            0 <= k < distinct_matches(ms, limit).len() && ((#[trigger] distinct_matches(
                ms,
                limit,
            )[k]) == ms[i] || repeats(ms[i], distinct_matches(ms, limit)[k])),
    decreases ms.len(),
{
    let front = ms.drop_last();
    let before = distinct_matches(front, limit);
    let all = distinct_matches(ms, limit);
    if i < front.len() {
        assert(front[i] == ms[i]);
        law_distinct_complete(front, limit, i);
        let k = choose|k: int|
            0 <= k < before.len() && ((#[trigger] before[k]) == ms[i] || repeats(
                ms[i],
                before[k],
            ));
        assert(all[k] == before[k]);
    } else if all.len() > before.len() {
        assert(all[before.len() as int] == ms[i]);
    } else {
        let k = choose|k: int| 0 <= k < before.len() && repeats(ms.last(), #[trigger] before[k]);
        assert(all[k] == before[k]);
    }
}

/// What comes first stays first: matches behind others change nothing of what those give.
pub proof fn law_first_matches_first(ms: Seq<PendingMatch>, more: Seq<PendingMatch>, limit: int)
    ensures
        distinct_matches(ms, limit).is_prefix_of(distinct_matches(ms + more, limit)),
    decreases more.len(),
{
    let all = ms + more;
    if more.len() > 0 {
        law_first_matches_first(ms, more.drop_last(), limit);
        assert(all.drop_last() =~= ms + more.drop_last());
        let a = distinct_matches(ms, limit);
        let b = distinct_matches(all.drop_last(), limit);
        let c = distinct_matches(all, limit);
        assert(b =~= c.subrange(0, b.len() as int));
        assert(a =~= c.subrange(0, a.len() as int));
    } else {
        assert(all =~= ms);
        let a = distinct_matches(ms, limit);
        assert(a =~= a.subrange(0, a.len() as int));
    }
}

/// A match shows its lines of the file unless nothing is on them, and only a brief answer
/// shortens what it shows.
pub proof fn law_shown(content: Seq<char>, focus: Seq<char>, max: usize)
    ensures
        shown_text(content, None) == content,
        trimmed(focus).len() > 0 ==> shown_text(content, Some(focus)) == focus,
        trimmed(focus).len() == 0 ==> shown_text(content, Some(focus)) == content,
        in_mode(content, SummaryMode::Full, max) == content,
{
}

/// The top confidence is the greatest that is a number.
pub proof fn law_top_confidence(rs: Seq<SemanticSearchMatch>, i: int)
    ensures
        0 <= i < rs.len() && !is_nan(rs[i].confidence) ==> score_key(rs[i].confidence)
            <= top_confidence(rs),
        top_confidence(rs) >= 0,
        top_confidence(rs) > 0 ==> exists|k: int|
            0 <= k < rs.len() && !is_nan((#[trigger] rs[k]).confidence) && score_key(
                rs[k].confidence,
            ) == top_confidence(rs),
    decreases rs.len(),
{
    if rs.len() > 0 {
        let front = rs.drop_last();
        law_top_confidence(front, i);
        if 0 <= i < front.len() {
            assert(front[i] == rs[i]);
        }
        if top_confidence(rs) > 0 {
            if top_confidence(rs) == top_confidence(front) {
                let k = choose|k: int|
                    0 <= k < front.len() && !is_nan((#[trigger] front[k]).confidence) && score_key(
                        front[k].confidence,
                    ) == top_confidence(front);
                assert(rs[k] == front[k]);
            } else {
                assert(rs[rs.len() - 1] == rs.last());
            }
        }
    }
}

/// Something is asked for the reason.
pub open spec fn asked_for(cs: Seq<Clarification>, reason: Seq<char>) -> bool {
    exists|k: int| 0 <= k < cs.len() && (#[trigger] cs[k]).1 == reason
}

proof fn lemma_ask_if(s: Seq<Clarification>, condition: bool, c: Clarification, reason: Seq<char>)
    ensures
        asked_for(ask_if(s, condition, c), reason) <==> asked_for(s, reason) || (condition && c.1
            == reason),
        ask_if(s, condition, c).len() == 0 <==> s.len() == 0 && !condition,
{
    let t = ask_if(s, condition, c);
    if asked_for(s, reason) {
        let k = choose|k: int| 0 <= k < s.len() && (#[trigger] s[k]).1 == reason;
        assert(t[k].1 == reason);
    }
    if condition && c.1 == reason {
        assert(t[s.len() as int].1 == reason);
    }
    if asked_for(t, reason) {
        let k = choose|k: int| 0 <= k < t.len() && (#[trigger] t[k]).1 == reason;
        if k < s.len() {
            assert(s[k].1 == reason);
        }
    }
}

proof fn lemma_reasons_differ()
    ensures
        "no_results"@.len() == 10,
        "low_confidence"@.len() == 14,
        "sparse_results"@.len() == 14,
        "low_confidence"@ != "sparse_results"@,
        "debug_goal_no_hits"@.len() == 18,
        "api_goal_disambiguation"@.len() == 23,
        "hybrid_intent"@.len() == 13,
{
    reveal_strlit("no_results");
    reveal_strlit("low_confidence");
    reveal_strlit("sparse_results");
    reveal_strlit("debug_goal_no_hits");
    reveal_strlit("api_goal_disambiguation");
    reveal_strlit("hybrid_intent");
    assert("low_confidence"@[0] != "sparse_results"@[0]);
}

/// For which reasons the caller is asked: for want of results exactly where there are none,
/// for low confidence exactly where there are results but none is confident enough, for few
/// results only where there are some and fewer than wanted, for the error message only
/// where a search for words found nothing to debug, for the API's name only where the search
/// went by meaning; and for the intent only where there is nothing else to ask.
pub proof fn law_reasons(
    query: Seq<char>,
    analysis: QueryAnalysis,
    goals: Seq<ContextGoal>,
    results: Seq<SemanticSearchMatch>,
    result_limit: int,
    ran_lexical: bool,
)
    ensures
        ({
            let cs = clarifications(query, analysis, goals, results, result_limit, ran_lexical);
            let top = top_confidence(results);
            &&& asked_for(cs, "no_results"@) <==> results.len() == 0
            &&& asked_for(cs, "low_confidence"@) <==> results.len() > 0 && top < 0x3eb3_3333
            &&& asked_for(cs, "sparse_results"@) <==> 0 < results.len() < result_limit - 1
                && result_limit >= 4 && top < 0x3f26_6666
            &&& asked_for(cs, "debug_goal_no_hits"@) <==> goals.contains(ContextGoal::Debugging)
                && ran_lexical && results.len() == 0
            &&& asked_for(cs, "api_goal_disambiguation"@) <==> goals.contains(
                ContextGoal::ApiDiscovery,
            ) && greater(analysis.embedding_weight, analysis.lexical_weight) && !asked_for(
                cs,
                "debug_goal_no_hits"@,
            )
            &&& asked_for(cs, "hybrid_intent"@) ==> cs.len() == 1 && analysis.primary_intent
                == QueryIntent::Hybrid && less_than(analysis.confidence, 0x3ecc_cccd)
            &&& cs.len() == 0 ==> analysis.primary_intent != QueryIntent::Hybrid || !less_than(
                analysis.confidence,
                0x3ecc_cccd,
            )
        }),
{
    let none = results.len() == 0;
    let top = top_confidence(results);
    let p0: Clarification = (
        "No indexed snippets matched '"@ + query
            + "'. Try naming the file or insert unique keywords."@,
        "no_results"@,
    );
    let p1: Clarification = (
        "Top matches are low confidence—specify the framework, module, or identifier you're targeting."@,
        "low_confidence"@,
    );
    let p2: Clarification = (
        "Few results matched. Narrow the scope by adding a directory, language filter, or symbol name."@,
        "sparse_results"@,
    );
    let p3: Clarification = (
        "Paste the exact error message or stack trace so the index can find the failing code."@,
        "debug_goal_no_hits"@,
    );
    let p4: Clarification = (
        "Mention the target SDK, module, or protocol to surface precise API definitions."@,
        "api_goal_disambiguation"@,
    );
    let p5: Clarification = (
        "Clarify whether you're searching for code, documentation, or call graphs so the engine can prioritize appropriately."@,
        "hybrid_intent"@,
    );
    let debugging = goals.contains(ContextGoal::Debugging) && ran_lexical && none;
    let api = !debugging && goals.contains(ContextGoal::ApiDiscovery) && greater(
        analysis.embedding_weight,
        analysis.lexical_weight,
    );
    let c1 = !none && top < KEY_0_35;
    let c2 = !none && results.len() < result_limit - 1 && result_limit >= 4 && top < KEY_0_65;
    let a = ask_if(Seq::empty(), none, p0);
    let b = ask_if(a, c1, p1);
    let c = ask_if(b, c2, p2);
    let d = ask_if(c, debugging, p3);
    let e = ask_if(d, api, p4);
    let c5 = e.len() == 0 && analysis.primary_intent == QueryIntent::Hybrid && less_than(
        analysis.confidence,
        KEY_0_4 as int,
    );
    lemma_reasons_differ();
    lemma_reason(a, b, c, d, e, none, c1, c2, debugging, api, c5, p0, p1, p2, p3, p4, p5, "no_results"@);
    lemma_reason(a, b, c, d, e, none, c1, c2, debugging, api, c5, p0, p1, p2, p3, p4, p5, "low_confidence"@);
    lemma_reason(a, b, c, d, e, none, c1, c2, debugging, api, c5, p0, p1, p2, p3, p4, p5, "sparse_results"@);
    lemma_reason(
        a,
        b,
        c,
        d,
        e,
        none,
        c1,
        c2,
        debugging,
        api,
        c5,
        p0,
        p1,
        p2,
        p3,
        p4,
        p5,
        "debug_goal_no_hits"@,
    );
    lemma_reason(
        a,
        b,
        c,
        d,
        e,
        none,
        c1,
        c2,
        debugging,
        api,
        c5,
        p0,
        p1,
        p2,
        p3,
        p4,
        p5,
        "api_goal_disambiguation"@,
    );
    lemma_reason(a, b, c, d, e, none, c1, c2, debugging, api, c5, p0, p1, p2, p3, p4, p5, "hybrid_intent"@);
}

proof fn lemma_reason(
    a: Seq<Clarification>,
    b: Seq<Clarification>,
    c: Seq<Clarification>,
    d: Seq<Clarification>,
    e: Seq<Clarification>,
    none: bool,
    c1: bool,
    c2: bool,
    c3: bool,
    c4: bool,
    c5: bool,
    p0: Clarification,
    p1: Clarification,
    p2: Clarification,
    p3: Clarification,
    p4: Clarification,
    p5: Clarification,
    reason: Seq<char>,
)
    requires
        a == ask_if(Seq::empty(), none, p0),
        b == ask_if(a, c1, p1),
        c == ask_if(b, c2, p2),
        d == ask_if(c, c3, p3),
        e == ask_if(d, c4, p4),
    ensures
        asked_for(ask_if(e, c5, p5), reason) <==> (none && p0.1 == reason) || (c1 && p1.1 == reason)
            || (c2 && p2.1 == reason) || (c3 && p3.1 == reason) || (c4 && p4.1 == reason) || (c5
            && p5.1 == reason),
{
    assert(!asked_for(Seq::<Clarification>::empty(), reason));
    lemma_ask_if(Seq::empty(), none, p0, reason);
    lemma_ask_if(a, c1, p1, reason);
    lemma_ask_if(b, c2, p2, reason);
    lemma_ask_if(c, c3, p3, reason);
    lemma_ask_if(d, c4, p4, reason);
    lemma_ask_if(e, c5, p5, reason);
}

/// The lexical results are counted, and no others.
pub proof fn law_lexical_count(rs: Seq<SemanticSearchMatch>)
    ensures
        lexical_count(rs) == rs.filter(|m: SemanticSearchMatch| m.source == SearchSource::Lexical).len(),
    decreases rs.len(),
{
    reveal(Seq::filter);
    if rs.len() > 0 {
        law_lexical_count(rs.drop_last());
    }
}

/// A place names its file, and its line where that is a line.
pub proof fn law_location(path: Seq<char>, line: i64)
    ensures
        location_of(path, None) == path,
        line <= 0 ==> location_of(path, Some(line)) == path,
        line > 0 ==> location_of(path, Some(line)) == path + "#L"@ + decimal(line as nat),
{
}

/// The summary of a search begins with how many chunks were looked at and how many matches
/// are returned.
pub proof fn law_search_summary(p: SemanticSearchResponse)
    ensures
        p.evaluated_chunks > 0 ==> ("Semantic search scanned "@ + decimal(p.evaluated_chunks as nat)
            + " chunk(s) and returned "@ + decimal(p.results@.len())
            + " match(es) (model "@).is_prefix_of(search_summary(p)),
        p.evaluated_chunks == 0 ==> search_summary(p)
            == "Semantic search evaluated 0 chunks and returned 0 match(es)."@,
{
    if p.evaluated_chunks > 0 {
        let model = match p.embedding_model {
            Some(m) => m@,
            None => DEFAULT_EMBEDDING_MODEL@,
        };
        let hits = lexical_count(p.results@);
        let head = "Semantic search scanned "@ + decimal(p.evaluated_chunks as nat)
            + " chunk(s) and returned "@ + decimal(p.results@.len()) + " match(es) (model "@;
        let none = Seq::<char>::empty();
        assert(head.subrange(0, head.len() as int) =~= head);
        lemma_still_begins(head, head, model);
        lemma_still_begins(head, head + model, ")."@);
        let s0 = head + model + ")."@;
        lemma_still_begins(head, s0, " "@);
        lemma_still_begins(head, s0 + " "@, decimal(hits));
        lemma_still_begins(
            head,
            s0 + " "@ + decimal(hits),
            " lexical match(es) promoted ahead of semantic ranks."@,
        );
        let s1 = if hits > 0 {
            s0 + " "@ + decimal(hits) + " lexical match(es) promoted ahead of semantic ranks."@
        } else {
            s0
        };
        let top = p.results@[0];
        let place = location_of(top.path@, top.line_start);
        let sure = score_text(top.confidence);
        lemma_still_begins_five(head, s1, " Top hit: "@, place, " (confidence "@, sure, ")."@);
        let s2 = if p.results@.len() > 0 {
            s1 + " Top hit: "@ + place + " (confidence "@ + sure + ")."@
        } else {
            s1
        };
        let t = p.suggested_tools@[0];
        let focus = match t.description {
            Some(d) => d@,
            None => "selected search match"@,
        };
        lemma_still_begins_five(
            head,
            s2,
            " Suggested follow-up: run "@,
            t.tool@,
            " with focus on "@,
            focus,
            " (score "@,
        );
        let with_focus = s2 + " Suggested follow-up: run "@ + t.tool@ + " with focus on "@ + focus
            + " (score "@;
        lemma_still_begins(head, with_focus, score_text(t.score));
        lemma_still_begins(head, with_focus + score_text(t.score), ")."@);
        let s3 = if p.suggested_tools@.len() > 0 {
            with_focus + score_text(t.score) + ")."@
        } else {
            s2
        };
        let prompts = joined(texts(p.clarification_prompts@), " "@);
        lemma_still_begins(head, s3, " Clarify: "@);
        lemma_still_begins(head, s3 + " Clarify: "@, prompts);
        let s4 = if p.clarification_prompts@.len() > 0 {
            s3 + " Clarify: "@ + prompts
        } else {
            s3
        };
        if let Some(d) = p.diagnostics {
            let a = match d.embedding_latency_ms {
                Some(ms) => decimal(ms as nat),
                None => none,
            };
            let b = match d.lexical_latency_ms {
                Some(ms) => decimal(ms as nat),
                None => none,
            };
            lemma_still_begins(head, s4, " Embedding latency: "@);
            lemma_still_begins(head, s4 + " Embedding latency: "@, a);
            lemma_still_begins(head, s4 + " Embedding latency: "@ + a, " ms."@);
            let s5 = if d.embedding_latency_ms is Some {
                s4 + " Embedding latency: "@ + a + " ms."@
            } else {
                s4
            };
            lemma_still_begins(head, s5, " Lexical latency: "@);
            lemma_still_begins(head, s5 + " Lexical latency: "@, b);
            lemma_still_begins(head, s5 + " Lexical latency: "@ + b, " ms."@);
            let s6 = if d.lexical_latency_ms is Some {
                s5 + " Lexical latency: "@ + b + " ms."@
            } else {
                s5
            };
            let total = decimal(d.total_latency_ms as nat);
            lemma_still_begins(head, s6, " Total wall time: "@);
            lemma_still_begins(head, s6 + " Total wall time: "@, total);
            lemma_still_begins(head, s6 + " Total wall time: "@ + total, " ms."@);
        }
    }
}

proof fn lemma_still_begins(head: Seq<char>, s: Seq<char>, more: Seq<char>)
    ensures
        head.is_prefix_of(s) ==> head.is_prefix_of(s + more),
{
    if head.is_prefix_of(s) {
        let n = head.len() as int;
        assert((s + more).subrange(0, n) =~= s.subrange(0, n));
    }
}

proof fn lemma_still_begins_five(
    head: Seq<char>,
    s: Seq<char>,
    a: Seq<char>,
    b: Seq<char>,
    c: Seq<char>,
    d: Seq<char>,
    e: Seq<char>,
)
    ensures
        head.is_prefix_of(s) ==> head.is_prefix_of(s + a + b + c + d + e),
{
    lemma_still_begins(head, s, a);
    lemma_still_begins(head, s + a, b);
    lemma_still_begins(head, s + a + b, c);
    lemma_still_begins(head, s + a + b + c, d);
    lemma_still_begins(head, s + a + b + c + d, e);
}

/// A symbol is told apart by its identifier, else by its name, and always by its path.
pub proof fn law_symbol_key(
    path: Seq<char>,
    identifier: Seq<char>,
    symbol: Seq<char>,
    other: Option<Seq<char>>,
)
    ensures
        symbol_key_of(path, Some(identifier), other) == Some(
            path + "::identifier::"@ + identifier,
        ),
        symbol_key_of(path, None, Some(symbol)) == Some(path + "::symbol::"@ + symbol),
        symbol_key_of(path, None, None) is None,
{
}

} // verus!
