//! Cuts a file's text into overlapping fragments that are small enough to embed.

use vstd::prelude::*;
use vstd::slice::slice_subrange;
use vstd::utf8::encode_utf8;
use crate::text::{
    chars_of, is_white_space, lemma_trimmed, lemma_trimmed_end, lemma_trimmed_start, string_of,
    trim, trim_end, trimmed, trimmed_end, trimmed_start,
};
use crate::pieces::{lines, lines_of, texts};
use crate::sizes::{
    char_width, count_of, lemma_count_monotone, lemma_count_take, lemma_encode_concat,
    lemma_size_push, lemma_size_take, utf8_size,
};

verus! {

/// A piece of a text, with the bytes and the lines that it covers in that text.
#[derive(Debug, Clone)]
pub struct ChunkFragment {
    pub content: String,
    pub byte_start: u32,
    pub byte_end: u32,
    pub line_start: u32,
    pub line_end: u32,
}

/// The least number of characters in the limit on a fragment.
pub const MIN_CHUNK_CHARS: usize = 256;

/// A window is not cut at a line feed that stands closer than this to its start.
pub const MIN_BREAK_CHARS: usize = 200;

/// Four characters for each token, as far as `usize` goes.
pub open spec fn token_chars(tokens: usize) -> int {
    if 4 * tokens > usize::MAX {
        usize::MAX as int
    } else {
        4 * tokens
    }
}

/// The most characters that a fragment may have.
pub open spec fn chunk_limit(tokens: usize) -> int {
    if token_chars(tokens) < MIN_CHUNK_CHARS {
        MIN_CHUNK_CHARS as int
    } else {
        token_chars(tokens)
    }
}

/// The last line feed before position `end`, or -1.
pub open spec fn last_newline(s: Seq<char>, end: int) -> int
    decreases end,
{
    if end <= 0 {
        -1
    } else if s[end - 1] == '\n' {
        end - 1
    } else {
        last_newline(s, end - 1)
    }
}

/// Where the window that begins at `start` ends: after `limit` characters, moved
/// back to just behind the last line feed where that leaves enough of it.
pub open spec fn window_end(s: Seq<char>, start: int, limit: int) -> int {
    if start + limit >= s.len() {
        s.len() as int
    } else {
        let newline = last_newline(s, start + limit);
        if newline >= start + MIN_BREAK_CHARS {
            newline + 1
        } else {
            start + limit
        }
    }
}

/// Where the text of the window that begins at `start` ends, without the white
/// space at its end.
pub open spec fn text_end(s: Seq<char>, start: int, limit: int) -> int {
    start + trimmed_end(s.subrange(start, window_end(s, start, limit))).len()
}

/// Where the window after a fragment from `start` to `end` begins: `overlap`
/// characters before its end, or at its end where that would not move forward.
pub open spec fn next_start(start: int, end: int, overlap: int) -> int {
    if end - overlap > start && end - overlap > 0 {
        end - overlap
    } else {
        end
    }
}

/// The ranges of `s`, from `start` on, that become fragments.
pub open spec fn windows(s: Seq<char>, start: int, limit: int, overlap: int) -> Seq<(int, int)>
    decreases s.len() - start,
    when 0 <= start && limit >= MIN_CHUNK_CHARS && overlap >= 0
    via windows_decreases
{
    if start >= s.len() {
        Seq::empty()
    } else {
        let end = text_end(s, start, limit);
        if end == start {
            windows(s, window_end(s, start, limit), limit, overlap)
        } else if end >= s.len() {
            seq![(start, end)]
        } else {
            seq![(start, end)] + windows(s, next_start(start, end, overlap), limit, overlap)
        }
    }
}

proof fn lemma_last_newline(s: Seq<char>, end: int)
    requires
        end <= s.len(),
    ensures
        -1 <= last_newline(s, end),
        last_newline(s, end) < end || last_newline(s, end) == -1,
        last_newline(s, end) >= 0 ==> s[last_newline(s, end)] == '\n',
        forall|i: int| 0 <= i && last_newline(s, end) < i < end ==> s[i] != '\n',
    decreases end,
{
    if end <= 0 {
    } else if s[end - 1] == '\n' {
    } else {
        lemma_last_newline(s, end - 1);
    }
}

proof fn lemma_window(s: Seq<char>, start: int, limit: int)
    requires
        0 <= start < s.len(),
        limit >= MIN_CHUNK_CHARS,
    ensures
        start < window_end(s, start, limit) <= s.len(),
        window_end(s, start, limit) <= start + limit,
        start <= text_end(s, start, limit) <= window_end(s, start, limit),
        s.subrange(start, text_end(s, start, limit)) == trimmed_end(
            s.subrange(start, window_end(s, start, limit)),
        ),
        forall|i: int|
            text_end(s, start, limit) <= i < window_end(s, start, limit) ==> is_white_space(
                #[trigger] s[i],
            ),
        text_end(s, start, limit) > start ==> !is_white_space(s[text_end(s, start, limit) - 1]),
{
    if start + limit < s.len() {
        lemma_last_newline(s, start + limit);
    }
    let e = window_end(s, start, limit);
    let w = s.subrange(start, e);
    lemma_trimmed_end(w);
    let t = text_end(s, start, limit);
    assert(s.subrange(start, t) =~= w.take(t - start));
    assert forall|i: int| t <= i < e implies is_white_space(#[trigger] s[i]) by {
        assert(w[i - start] == s[i]);
    }
}

#[via_fn]
proof fn windows_decreases(s: Seq<char>, start: int, limit: int, overlap: int) {
    if 0 <= start < s.len() {
        lemma_window(s, start, limit);
    }
}

/// The line, counted from one, of the character at position `i`.
pub open spec fn line_at(s: Seq<char>, i: int) -> nat {
    1 + count_of(s.take(i), '\n')
}

/// `f` is the fragment of `s` that covers the characters of `range`.
pub open spec fn is_fragment_of(f: ChunkFragment, s: Seq<char>, range: (int, int)) -> bool {
    &&& f.content@ == s.subrange(range.0, range.1)
    &&& f.byte_start == utf8_size(s.take(range.0)) as u32
    &&& f.byte_end == utf8_size(s.take(range.1)) as u32
    &&& f.line_start == line_at(s, range.0) as u32
    &&& f.line_end == line_at(s, range.1 - 1) as u32
}

/// The ranges into which the trimmed text `s` is cut.
pub open spec fn chunk_ranges(
    s: Seq<char>,
    chunk_size_tokens: usize,
    chunk_overlap_tokens: usize,
) -> Seq<(int, int)> {
    windows(s, 0, chunk_limit(chunk_size_tokens), token_chars(chunk_overlap_tokens))
}

/// The range is a stretch of `s` that is not empty, begins at `start` or later, has
/// at most `limit` characters and does not end in white space.
pub open spec fn well_cut(s: Seq<char>, start: int, limit: int, w: (int, int)) -> bool {
    &&& start <= w.0 < w.1 <= s.len()
    &&& w.1 - w.0 <= limit
    &&& !is_white_space(s[w.1 - 1])
}

/// Range `k` covers position `i`.
pub open spec fn covers(ws: Seq<(int, int)>, k: int, i: int) -> bool {
    0 <= k < ws.len() && ws[k].0 <= i < ws[k].1
}

/// Each fragment is a stretch of text that is not empty, is no longer than the limit
/// and does not end in white space.
pub proof fn law_fragments_well_cut(s: Seq<char>, start: int, limit: int, overlap: int)
    requires
        0 <= start,
        limit >= MIN_CHUNK_CHARS,
        overlap >= 0,
    ensures
        forall|k: int|
            0 <= k < windows(s, start, limit, overlap).len() ==> well_cut(
                s,
                start,
                limit,
                #[trigger] windows(s, start, limit, overlap)[k],
            ),
    decreases s.len() - start,
{
    if start < s.len() {
        lemma_window(s, start, limit);
        let t = text_end(s, start, limit);
        let all = windows(s, start, limit, overlap);
        if t == start {
            let e = window_end(s, start, limit);
            law_fragments_well_cut(s, e, limit, overlap);
            assert forall|k: int| 0 <= k < all.len() implies well_cut(
                s,
                start,
                limit,
                #[trigger] all[k],
            ) by {
                assert(well_cut(s, e, limit, windows(s, e, limit, overlap)[k]));
            }
        } else if t < s.len() {
            let n = next_start(start, t, overlap);
            law_fragments_well_cut(s, n, limit, overlap);
            let rest = windows(s, n, limit, overlap);
            assert forall|k: int| 0 <= k < all.len() implies well_cut(
                s,
                start,
                limit,
                #[trigger] all[k],
            ) by {
                if k > 0 {
                    assert(all[k] == rest[k - 1]);
                    assert(well_cut(s, n, limit, rest[k - 1]));
                }
            }
        }
    }
}

/// A fragment begins behind the start of the one before it, and reaches back at most
/// `overlap` characters into it.
pub proof fn law_fragments_advance(s: Seq<char>, start: int, limit: int, overlap: int, j: int)
    requires
        0 <= start,
        limit >= MIN_CHUNK_CHARS,
        overlap >= 0,
        0 <= j < windows(s, start, limit, overlap).len() - 1,
    ensures
        windows(s, start, limit, overlap)[j].0 < windows(s, start, limit, overlap)[j + 1].0,
        windows(s, start, limit, overlap)[j].1 - overlap <= windows(
            s,
            start,
            limit,
            overlap,
        )[j + 1].0,
    decreases s.len() - start,
{
    if start < s.len() {
        lemma_window(s, start, limit);
        let t = text_end(s, start, limit);
        if t == start {
            law_fragments_advance(s, window_end(s, start, limit), limit, overlap, j);
        } else if t < s.len() {
            let n = next_start(start, t, overlap);
            let rest = windows(s, n, limit, overlap);
            if j == 0 {
                law_fragments_well_cut(s, n, limit, overlap);
                assert(well_cut(s, n, limit, rest[0]));
            } else {
                law_fragments_advance(s, n, limit, overlap, j - 1);
            }
        }
    }
}

/// Every character that is not white space lies in some fragment.
pub proof fn law_fragments_cover(s: Seq<char>, start: int, limit: int, overlap: int, i: int)
    requires
        0 <= start <= i < s.len(),
        limit >= MIN_CHUNK_CHARS,
        overlap >= 0,
        !is_white_space(s[i]),
    ensures
        exists|k: int| covers(windows(s, start, limit, overlap), k, i),
    decreases s.len() - start,
{
    lemma_window(s, start, limit);
    let t = text_end(s, start, limit);
    let all = windows(s, start, limit, overlap);
    if t == start {
        law_fragments_cover(s, window_end(s, start, limit), limit, overlap, i);
    } else if i < t {
        assert(covers(all, 0, i));
    } else {
        let n = next_start(start, t, overlap);
        law_fragments_cover(s, n, limit, overlap, i);
        let rest = windows(s, n, limit, overlap);
        let k = choose|k: int| covers(rest, k, i);
        assert(covers(all, k + 1, i));
    }
}

/// A text that is not blank gives at least one fragment, and the first begins at the
/// start of the trimmed text.
pub proof fn law_first_fragment(s: Seq<char>, limit: int, overlap: int)
    requires
        limit >= MIN_CHUNK_CHARS,
        overlap >= 0,
        s.len() > 0,
        !is_white_space(s[0]),
    ensures
        windows(s, 0, limit, overlap).len() > 0,
        windows(s, 0, limit, overlap)[0].0 == 0,
{
    lemma_window(s, 0, limit);
    let t = text_end(s, 0, limit);
    if t == 0 {
        assert(is_white_space(s[0]));
    }
}

proof fn lemma_first_start(s: Seq<char>, start: int, limit: int, overlap: int)
    requires
        0 <= start,
        limit >= MIN_CHUNK_CHARS,
        overlap >= 0,
        windows(s, start, limit, overlap).len() > 0,
    ensures
        ({
            let first = windows(s, start, limit, overlap)[0].0;
            &&& start <= first
            &&& first == start || (first > start + 200 && forall|i: int|
                start <= i < first ==> is_white_space(#[trigger] s[i]))
        }),
    decreases s.len() - start,
{
    if start < s.len() {
        lemma_window(s, start, limit);
        if text_end(s, start, limit) == start {
            let e = window_end(s, start, limit);
            if e < s.len() {
                lemma_first_start(s, e, limit, overlap);
            }
        }
    }
}

/// Where a fragment is longer than the overlap, the next one begins exactly the overlap
/// before its end, and else right at its end. Only a long stretch of white space is
/// passed over: where the next one begins later, it does so more than two hundred characters
/// later, with nothing but white space in between.
pub proof fn law_fragments_overlap(s: Seq<char>, start: int, limit: int, overlap: int, j: int)
    requires
        0 <= start,
        limit >= MIN_CHUNK_CHARS,
        overlap >= 0,
        0 <= j < windows(s, start, limit, overlap).len() - 1,
    ensures
        ({
            let (a, b) = windows(s, start, limit, overlap)[j];
            let next = windows(s, start, limit, overlap)[j + 1].0;
            let wanted = if b - a > overlap {
                b - overlap
            } else {
                b
            };
            &&& wanted <= next
            &&& next == wanted || (next > wanted + 200 && forall|i: int|
                wanted <= i < next ==> is_white_space(#[trigger] s[i]))
        }),
    decreases s.len() - start,
{
    if start < s.len() {
        lemma_window(s, start, limit);
        let t = text_end(s, start, limit);
        if t == start {
            law_fragments_overlap(s, window_end(s, start, limit), limit, overlap, j);
        } else if t < s.len() {
            let n = next_start(start, t, overlap);
            let all = windows(s, start, limit, overlap);
            let rest = windows(s, n, limit, overlap);
            assert(all[j + 1] == rest[j]);
            if j == 0 {
                lemma_first_start(s, n, limit, overlap);
            } else {
                assert(all[j] == rest[j - 1]);
                law_fragments_overlap(s, n, limit, overlap, j - 1);
            }
        }
    }
}

/// With an overlap of at most two hundred characters, a fragment that is longer than the
/// overlap is always followed by one that begins exactly the overlap before its end: the two
/// have those characters in common.
pub proof fn law_short_overlap(s: Seq<char>, start: int, limit: int, overlap: int, j: int)
    requires
        0 <= start,
        limit >= MIN_CHUNK_CHARS,
        0 < overlap <= 200,
        0 <= j < windows(s, start, limit, overlap).len() - 1,
        windows(s, start, limit, overlap)[j].1 - windows(s, start, limit, overlap)[j].0 > overlap,
    ensures
        windows(s, start, limit, overlap)[j + 1].0 == windows(s, start, limit, overlap)[j].1
            - overlap,
{
    law_fragments_overlap(s, start, limit, overlap, j);
    law_fragments_well_cut(s, start, limit, overlap);
    let w = windows(s, start, limit, overlap)[j];
    assert(well_cut(s, start, limit, w));
    assert(!is_white_space(s[w.1 - 1]));
}

/// The text from `a` on may be cut at `e`: at the end of the text where that lies within
/// the limit, else behind the last line feed within the limit, where that is at least two
/// hundred characters in, else at the limit. From `b` up to there, there is only white space.
pub open spec fn cut_at(s: Seq<char>, a: int, b: int, e: int, limit: int) -> bool {
    &&& b <= e <= s.len()
    &&& forall|i: int| b <= i < e ==> is_white_space(#[trigger] s[i])
    &&& if s.len() <= a + limit {
        e == s.len()
    } else {
        ||| e == a + limit && forall|i: int| a + 200 <= i < a + limit ==> s[i] != '\n'
        ||| a + 200 < e <= a + limit && s[e - 1] == '\n' && forall|i: int|
            e <= i < a + limit ==> s[i] != '\n'
    }
}

/// A fragment of a text that goes on behind the limit is cut behind the last line feed
/// within the limit, where that is at least two hundred characters in, and else at the
/// limit; where the text ends within the limit, the fragment goes up to that end. Only
/// white space at its end is left away.
pub proof fn law_fragment_end(s: Seq<char>, start: int, limit: int, overlap: int, j: int)
    requires
        0 <= start,
        limit >= MIN_CHUNK_CHARS,
        overlap >= 0,
        0 <= j < windows(s, start, limit, overlap).len(),
    ensures
        exists|e: int| #[trigger]
            cut_at(
                s,
                windows(s, start, limit, overlap)[j].0,
                windows(s, start, limit, overlap)[j].1,
                e,
                limit,
            ),
    decreases s.len() - start,
{
    if start < s.len() {
        lemma_window(s, start, limit);
        let t = text_end(s, start, limit);
        let e = window_end(s, start, limit);
        let all = windows(s, start, limit, overlap);
        if t == start {
            law_fragment_end(s, e, limit, overlap, j);
            assert(all == windows(s, e, limit, overlap));
            let f = choose|f: int| #[trigger] cut_at(s, all[j].0, all[j].1, f, limit);
            assert(cut_at(s, all[j].0, all[j].1, f, limit));
        } else if j == 0 {
            assert(all[0] == (start, t));
            if start + limit < s.len() {
                lemma_last_newline(s, start + limit);
            }
            assert(cut_at(s, start, t, e, limit));
            assert(cut_at(s, all[j].0, all[j].1, e, limit));
        } else if t < s.len() {
            let n = next_start(start, t, overlap);
            let rest = windows(s, n, limit, overlap);
            assert(all[j] == rest[j - 1]);
            law_fragment_end(s, n, limit, overlap, j - 1);
            let f = choose|f: int| #[trigger] cut_at(s, rest[j - 1].0, rest[j - 1].1, f, limit);
            assert(cut_at(s, all[j].0, all[j].1, f, limit));
        } else {
            assert(all.len() == 1);
        }
    } else {
        assert(windows(s, start, limit, overlap).len() == 0);
    }
}

/// The sizes are given in tokens of four characters: a fragment is no longer than its
/// tokens allow, or than 256 characters where they allow less, and the next one reaches
/// back by the tokens of the overlap.
pub proof fn law_chunk_tokens(s: Seq<char>, size: usize, overlap: usize, j: int)
    requires
        4 * size <= usize::MAX,
        4 * overlap <= usize::MAX,
        0 <= j < chunk_ranges(s, size, overlap).len(),
    ensures
        ({
            let ranges = chunk_ranges(s, size, overlap);
            let (a, b) = ranges[j];
            let wanted = if b - a > 4 * overlap {
                b - 4 * overlap
            } else {
                b
            };
            &&& 0 <= a < b <= s.len()
            &&& b - a <= 4 * size || b - a <= 256
            &&& j + 1 < ranges.len() ==> wanted <= ranges[j + 1].0 && (ranges[j + 1].0 == wanted
                || (ranges[j + 1].0 > wanted + 200 && forall|i: int|
                wanted <= i < ranges[j + 1].0 ==> is_white_space(#[trigger] s[i])))
            &&& j + 1 == ranges.len() ==> forall|i: int|
                b <= i < s.len() ==> is_white_space(#[trigger] s[i])
        }),
{
    let limit = chunk_limit(size);
    let over = token_chars(overlap);
    let ranges = chunk_ranges(s, size, overlap);
    law_fragments_well_cut(s, 0, limit, over);
    assert(well_cut(s, 0, limit, ranges[j]));
    if j + 1 < ranges.len() {
        law_fragments_overlap(s, 0, limit, over, j);
    } else {
        assert forall|i: int| ranges[j].1 <= i < s.len() implies is_white_space(
            #[trigger] s[i],
        ) by {
            if !is_white_space(s[i]) {
                law_fragments_cover(s, 0, limit, over, i);
                let k = choose|k: int| covers(ranges, k, i);
                lemma_ends_grow(s, 0, limit, over, k);
            }
        }
    }
}

proof fn lemma_ends_grow(s: Seq<char>, start: int, limit: int, overlap: int, k: int)
    requires
        0 <= start,
        limit >= MIN_CHUNK_CHARS,
        overlap >= 0,
        0 <= k < windows(s, start, limit, overlap).len(),
    ensures
        windows(s, start, limit, overlap)[k].1 <= windows(s, start, limit, overlap).last().1,
    decreases windows(s, start, limit, overlap).len() - k,
{
    let all = windows(s, start, limit, overlap);
    if k + 1 < all.len() {
        lemma_end_grows(s, start, limit, overlap, k);
        lemma_ends_grow(s, start, limit, overlap, k + 1);
    }
}

proof fn lemma_end_grows(s: Seq<char>, start: int, limit: int, overlap: int, j: int)
    requires
        0 <= start,
        limit >= MIN_CHUNK_CHARS,
        overlap >= 0,
        0 <= j < windows(s, start, limit, overlap).len() - 1,
    ensures
        windows(s, start, limit, overlap)[j].1 <= windows(s, start, limit, overlap)[j + 1].1,
{
    let all = windows(s, start, limit, overlap);
    let (a, b) = all[j];
    let (c, d) = all[j + 1];
    law_fragments_well_cut(s, start, limit, overlap);
    assert(well_cut(s, start, limit, all[j]));
    assert(well_cut(s, start, limit, all[j + 1]));
    if d < b {
        law_fragment_end(s, start, limit, overlap, j);
        law_fragment_end(s, start, limit, overlap, j + 1);
        law_fragments_advance(s, start, limit, overlap, j);
        let e = choose|e: int| #[trigger] cut_at(s, c, d, e, limit);
        let f = choose|f: int| #[trigger] cut_at(s, a, b, f, limit);
        assert(e >= b);
        assert(is_white_space(s[b - 1]));
    }
}

/// A fragment's first line is one more than the line feeds in front of it, and it goes over
/// one line more for each line feed in it.
pub proof fn law_fragment_lines(f: ChunkFragment, s: Seq<char>, range: (int, int))
    requires
        0 <= range.0 < range.1 <= s.len() < u32::MAX,
        is_fragment_of(f, s, range),
        s[range.1 - 1] != '\n',
    ensures
        f.line_start == 1 + count_of(s.take(range.0), '\n'),
        f.line_end - f.line_start == count_of(f.content@, '\n'),
{
    let (a, b) = range;
    lemma_count_bound(s.take(a), '\n');
    lemma_count_bound(s.take(b - 1), '\n');
    lemma_count_monotone(s, '\n', a, b - 1);
    lemma_count_between(s, a, b, '\n');
    lemma_count_take(s, '\n', b - 1);
}

proof fn lemma_count_bound(s: Seq<char>, c: char)
    ensures
        count_of(s, c) <= s.len(),
    decreases s.len(),
{
    if s.len() > 0 {
        lemma_count_bound(s.drop_last(), c);
    }
}

proof fn lemma_count_between(s: Seq<char>, a: int, b: int, c: char)
    requires
        0 <= a <= b <= s.len(),
    ensures
        count_of(s.take(b), c) == count_of(s.take(a), c) + count_of(s.subrange(a, b), c),
    decreases b - a,
{
    if a < b {
        lemma_count_between(s, a, b - 1, c);
        assert(s.take(b).drop_last() =~= s.take(b - 1));
        assert(s.subrange(a, b).drop_last() =~= s.subrange(a, b - 1));
    } else {
        assert(s.subrange(a, b) =~= Seq::<char>::empty());
    }
}

/// The bytes that a fragment names are the bytes of its content.
pub proof fn law_fragment_bytes(f: ChunkFragment, s: Seq<char>, range: (int, int))
    requires
        0 <= range.0 <= range.1 <= s.len(),
        is_fragment_of(f, s, range),
        utf8_size(s) <= u32::MAX,
    ensures
        f.byte_start <= f.byte_end <= utf8_size(s),
        encode_utf8(s).subrange(f.byte_start as int, f.byte_end as int) == encode_utf8(f.content@),
{
    lemma_size_take(s, range.0, range.1);
    lemma_size_take(s, range.1, s.len() as int);
}

/// The last position in a sorted list that is less than `end`, where it is at least
/// `min_break`.
pub fn find_break_index(newlines: &[usize], end: usize, min_break: usize) -> (r: Option<usize>)
    requires
        forall|i: int, j: int| 0 <= i < j < newlines@.len() ==> newlines@[i] < newlines@[j],
    ensures
        match r {
            Some(v) => newlines@.contains(v) && v < end && v >= min_break && forall|j: int|
                0 <= j < newlines@.len() && newlines@[j] < end ==> newlines@[j] <= v,
            None => forall|j: int|
                0 <= j < newlines@.len() && newlines@[j] < end ==> newlines@[j] < min_break,
        },
{
    let mut lo: usize = 0;
    let mut hi: usize = newlines.len();
    while lo < hi
        invariant
            lo <= hi <= newlines.len(),
            forall|i: int, j: int| 0 <= i < j < newlines@.len() ==> newlines@[i] < newlines@[j],
            forall|j: int| 0 <= j < lo ==> newlines@[j] < end,
            forall|j: int| hi <= j < newlines@.len() ==> newlines@[j] >= end,
        decreases hi - lo,
    {
        let mid: usize = lo + (hi - lo) / 2;
        if newlines[mid] < end {
            lo = mid + 1;
        } else {
            hi = mid;
        }
    }
    if lo > 0 {
        let value = newlines[lo - 1];
        if value >= min_break {
            assert(newlines@[lo - 1] == value);
            return Some(value);
        }
    }
    None
}

/// One more than the index of the last entry of a sorted list that is at most
/// `target`; one for an empty list.
pub fn line_number_for_char(line_starts: &[usize], target: usize) -> (r: usize)
    requires
        forall|i: int, j: int|
            0 <= i < j < line_starts@.len() ==> line_starts@[i] < line_starts@[j],
    ensures
        line_starts@.len() == 0 ==> r == 1,
        line_starts@.len() > 0 ==> 1 <= r <= line_starts@.len(),
        forall|j: int| 0 <= j < line_starts@.len() && j < r && r > 1 ==> line_starts@[j] <= target,
        forall|j: int| r <= j < line_starts@.len() ==> line_starts@[j] > target,
{
    let mut lo: usize = 0;
    let mut hi: usize = line_starts.len();
    while lo < hi
        invariant
            lo <= hi <= line_starts.len(),
            forall|i: int, j: int|
                0 <= i < j < line_starts@.len() ==> line_starts@[i] < line_starts@[j],
            forall|j: int| 0 <= j < lo ==> line_starts@[j] <= target,
            forall|j: int| hi <= j < line_starts@.len() ==> line_starts@[j] > target,
        decreases hi - lo,
    {
        let mid: usize = lo + (hi - lo) / 2;
        if line_starts[mid] <= target {
            lo = mid + 1;
        } else {
            hi = mid;
        }
    }
    if lo == 0 {
        1
    } else {
        lo
    }
}

/// The byte offset listed for a character, or the whole size behind the last one.
pub fn char_index_to_byte(index: usize, char_byte_indices: &[usize], total_bytes: usize) -> (r:
    usize)
    ensures
        r == if index < char_byte_indices@.len() {
            char_byte_indices@[index as int]
        } else {
            total_bytes
        },
{
    if index < char_byte_indices.len() {
        char_byte_indices[index]
    } else {
        total_bytes
    }
}

/// The whole trimmed text as one fragment.
pub fn fallback_fragment(content: &str) -> (r: ChunkFragment)
    ensures
        r.content@ == trimmed(content@),
        r.byte_start == 0,
        r.byte_end == utf8_size(trimmed(content@)) as u32,
        r.line_start == 1,
        r.line_end == (if trimmed(content@).len() == 0 {
            1
        } else {
            lines_of(trimmed(content@)).len()
        }) as u32,
{
    let v = chars_of(content);
    let snippet = trim(v.as_slice());
    if snippet.len() == 0 {
        assert(trimmed(content@) =~= Seq::<char>::empty());
        return ChunkFragment {
            content: String::new(),
            byte_start: 0,
            byte_end: 0,
            line_start: 1,
            line_end: 1,
        };
    }
    let content = string_of(snippet);
    let byte_length: usize = content.as_str().as_bytes().len();
    let line_list = lines(snippet);
    let line_count: usize = line_list.len();
    assert(texts(line_list@).len() == line_list@.len());
    ChunkFragment {
        content,
        byte_start: 0,
        byte_end: byte_length as u32,
        line_start: 1,
        line_end: line_count as u32,
    }
}

/// The tables of a text: where each character begins in bytes, where the line feeds
/// stand, and where the lines begin.
pub struct TextTables {
    pub offsets: Vec<usize>,
    pub newlines: Vec<usize>,
    pub line_starts: Vec<usize>,
}

impl TextTables {
    /// The tables describe the first `n` characters of `s`.
    pub open spec fn describe(&self, s: Seq<char>, n: int) -> bool {
        &&& 0 <= n <= s.len()
        &&& self.offsets@.len() == n
        &&& forall|i: int| 0 <= i < n ==> self.offsets@[i] == utf8_size(#[trigger] s.take(i))
        &&& forall|i: int, j: int|
            0 <= i < j < self.newlines@.len() ==> self.newlines@[i] < self.newlines@[j]
        &&& forall|k: int|
            0 <= k < self.newlines@.len() ==> 0 <= #[trigger] self.newlines@[k] < n
                && s[self.newlines@[k] as int] == '\n' && count_of(
                s.take(self.newlines@[k] as int),
                '\n',
            ) == k
        &&& forall|i: int| 0 <= i < n && s[i] == '\n' ==> self.newlines@.contains(i as usize)
        &&& self.newlines@.len() == count_of(s.take(n), '\n')
        &&& self.line_starts@.len() == self.newlines@.len() + 1
        &&& self.line_starts@[0] == 0
        &&& forall|k: int|
            0 < k < self.line_starts@.len() ==> #[trigger] self.line_starts@[k]
                == self.newlines@[k - 1] + 1
    }
}

/// The tables of `s`, with its size in bytes.
pub fn index_text(s: &[char]) -> (r: (TextTables, usize))
    requires
        utf8_size(s@) <= usize::MAX,
    ensures
        r.0.describe(s@, s@.len() as int),
        r.1 == utf8_size(s@),
{
    let mut tables = TextTables {
        offsets: Vec::new(),
        newlines: Vec::new(),
        line_starts: vec![0usize],
    };
    let mut total: usize = 0;
    let mut i: usize = 0;
    assert(s@.take(0) =~= Seq::<char>::empty());
    while i < s.len()
        invariant
            i <= s.len(),
            utf8_size(s@) <= usize::MAX,
            total == utf8_size(s@.take(i as int)),
            tables.describe(s@, i as int),
        decreases s.len() - i,
    {
        let c = s[i];
        let ghost before = tables;
        proof {
            assert(s@.take(i + 1) =~= s@.take(i as int).push(c));
            lemma_size_push(s@.take(i as int), c);
            lemma_size_take(s@, i + 1, s@.len() as int);
            lemma_count_take(s@, '\n', i as int);
        }
        tables.offsets.push(total);
        total += char_width(c);
        if c == '\n' {
            tables.newlines.push(i);
            tables.line_starts.push(i + 1);
            proof {
                assert forall|j: int| 0 <= j < i + 1 && s@[j] == '\n' implies tables.newlines@.contains(
                    j as usize,
                ) by {
                    if j < i {
                        assert(before.newlines@.contains(j as usize));
                        let k = choose|k: int|
                            0 <= k < before.newlines@.len() && before.newlines@[k] == j as usize;
                        assert(tables.newlines@[k] == j as usize);
                    } else {
                        assert(tables.newlines@.last() == i);
                    }
                }
                assert forall|k: int| 0 < k < tables.line_starts@.len() implies #[trigger] tables.line_starts@[k]
                    == tables.newlines@[k - 1] + 1 by {
                    if k < before.line_starts@.len() {
                        assert(before.line_starts@[k] == before.newlines@[k - 1] + 1);
                    }
                }
            }
        }
        i += 1;
    }
    assert(s@.take(i as int) =~= s@);
    (tables, total)
}

proof fn lemma_last_newline_is(s: Seq<char>, end: int, p: int)
    requires
        0 <= p < end <= s.len(),
        s[p] == '\n',
        forall|i: int| p < i < end ==> s[i] != '\n',
    ensures
        last_newline(s, end) == p,
{
    lemma_last_newline(s, end);
    let q = last_newline(s, end);
    if q < p {
        assert(s[p] != '\n');
    } else if p < q {
        assert(s[q] != '\n');
    }
}

/// The end of the window that begins at `start`.
fn find_window_end(s: &[char], tables: &TextTables, start: usize, limit: usize) -> (r: usize)
    requires
        tables.describe(s@, s@.len() as int),
        start < s@.len(),
        limit >= MIN_CHUNK_CHARS,
    ensures
        r == window_end(s@, start as int, limit as int),
{
    if limit >= s.len() - start {
        return s.len();
    }
    let end: usize = start + limit;
    proof {
        lemma_last_newline(s@, end as int);
    }
    match find_break_index(tables.newlines.as_slice(), end, start + MIN_BREAK_CHARS) {
        Some(p) => {
            proof {
                let k = choose|k: int|
                    0 <= k < tables.newlines@.len() && tables.newlines@[k] == p;
                assert(s@[p as int] == '\n');
                assert forall|i: int| p < i < end implies s@[i] != '\n' by {
                    if s@[i] == '\n' {
                        assert(tables.newlines@.contains(i as usize));
                    }
                }
                lemma_last_newline_is(s@, end as int, p as int);
            }
            p + 1
        },
        None => {
            proof {
                let q = last_newline(s@, end as int);
                if q >= start + MIN_BREAK_CHARS {
                    assert(s@[q] == '\n');
                    assert(tables.newlines@.contains(q as usize));
                }
            }
            end
        },
    }
}

/// The line of the character at `target`.
fn line_of_char(s: &[char], tables: &TextTables, target: usize) -> (r: usize)
    requires
        tables.describe(s@, s@.len() as int),
        target < s@.len(),
    ensures
        r == line_at(s@, target as int),
{
    proof {
        let ls = tables.line_starts@;
        assert forall|i: int, j: int| 0 <= i < j < ls.len() implies ls[i] < ls[j] by {
            assert(ls[j] == tables.newlines@[j - 1] + 1);
            if i > 0 {
                assert(ls[i] == tables.newlines@[i - 1] + 1);
            }
        }
    }
    let r = line_number_for_char(tables.line_starts.as_slice(), target);
    proof {
        let ls = tables.line_starts@;
        let nl = tables.newlines@;
        let n = count_of(s@.take(target as int), '\n') as int;
        assert(s@.take(s@.len() as int) =~= s@);
        if r > 1 {
            assert(ls[r - 1] <= target);
            let p = nl[r - 2] as int;
            assert(ls[r - 1] == nl[r - 2] + 1);
            lemma_count_take(s@, '\n', p);
            lemma_count_monotone(s@, '\n', p + 1, target as int);
        }
        if r < ls.len() {
            assert(ls[r as int] > target);
            assert(ls[r as int] == nl[r - 1] + 1);
            lemma_count_monotone(s@, '\n', target as int, nl[r - 1] as int);
        } else {
            lemma_count_take(s@, '\n', target as int);
        }
    }
    r
}

/// Four characters for each token, as far as `usize` goes.
fn chars_for_tokens(tokens: usize) -> (r: usize)
    ensures
        r == token_chars(tokens),
{
    if tokens > usize::MAX / 4 {
        usize::MAX
    } else {
        tokens * 4
    }
}

/// The fragment of `s` from character `start` to character `end`.
fn make_fragment(
    s: &[char],
    tables: &TextTables,
    total_bytes: usize,
    start: usize,
    end: usize,
) -> (r: ChunkFragment)
    requires
        tables.describe(s@, s@.len() as int),
        total_bytes == utf8_size(s@),
        start < end <= s@.len(),
    ensures
        is_fragment_of(r, s@, (start as int, end as int)),
{
    assert(s@.take(s@.len() as int) =~= s@);
    let start_byte = char_index_to_byte(start, tables.offsets.as_slice(), total_bytes);
    let end_byte = char_index_to_byte(end, tables.offsets.as_slice(), total_bytes);
    assert(end_byte == utf8_size(s@.take(end as int)));
    assert(start_byte == utf8_size(s@.take(start as int)));
    let line_start = line_of_char(s, tables, start);
    let line_end = line_of_char(s, tables, end - 1);
    ChunkFragment {
        content: string_of(slice_subrange(s, start, end)),
        byte_start: start_byte as u32,
        byte_end: end_byte as u32,
        line_start: line_start as u32,
        line_end: line_end as u32,
    }
}

/// The fragments of `content`: none where it is blank, else one for each window of
/// the trimmed text. A window has at most `chunk_size_tokens` times four characters
/// (and never a limit under 256), is cut behind a line feed where one stands far
/// enough in, and reaches back `chunk_overlap_tokens` times four characters.
pub fn chunk_content(
    content: &str,
    chunk_size_tokens: usize,
    chunk_overlap_tokens: usize,
) -> (r: Vec<ChunkFragment>)
    ensures
        r@.len() == chunk_ranges(
            trimmed(content@),
            chunk_size_tokens,
            chunk_overlap_tokens,
        ).len(),
        forall|k: int|
            0 <= k < r@.len() ==> is_fragment_of(
                #[trigger] r@[k],
                trimmed(content@),
                chunk_ranges(trimmed(content@), chunk_size_tokens, chunk_overlap_tokens)[k],
            ),
        r@.len() == 0 <==> trimmed(content@).len() == 0,
{
    let whole = chars_of(content);
    let s = trim(whole.as_slice());
    let total_size: usize = content.as_bytes().len();
    proof {
        lemma_trimmed_start(content@);
        lemma_trimmed_end(trimmed_start(content@));
        lemma_trimmed(content@);
        let ws = trimmed_start(content@);
        lemma_size_take(ws, s@.len() as int, ws.len() as int);
        lemma_encode_concat(content@.take(content@.len() - ws.len()), ws);
        assert(content@ =~= content@.take(content@.len() - ws.len()) + ws);
    }
    let ghost limit = chunk_limit(chunk_size_tokens);
    let ghost over = token_chars(chunk_overlap_tokens);
    if s.len() == 0 {
        assert(chunk_ranges(s@, chunk_size_tokens, chunk_overlap_tokens).len() == 0);
        return Vec::new();
    }
    let requested: usize = chars_for_tokens(chunk_size_tokens);
    let chunk_char_limit: usize = if requested < MIN_CHUNK_CHARS {
        MIN_CHUNK_CHARS
    } else {
        requested
    };
    let overlap_char_limit: usize = chars_for_tokens(chunk_overlap_tokens);
    let (tables, total_bytes) = index_text(s);
    let mut fragments: Vec<ChunkFragment> = Vec::new();
    let mut start: usize = 0;
    let ghost ranges = chunk_ranges(s@, chunk_size_tokens, chunk_overlap_tokens);
    proof {
        law_first_fragment(s@, limit, over);
        assert(Seq::<(int, int)>::empty() + ranges =~= ranges);
    }
    while start < s.len()
        invariant
            start <= s@.len(),
            s@ == trimmed(content@),
            s@.len() > 0,
            ranges == chunk_ranges(s@, chunk_size_tokens, chunk_overlap_tokens),
            ranges.len() > 0,
            tables.describe(s@, s@.len() as int),
            total_bytes == utf8_size(s@),
            chunk_char_limit == limit,
            overlap_char_limit == over,
            limit >= MIN_CHUNK_CHARS,
            over >= 0,
            fragments@.len() <= ranges.len(),
            ranges.skip(fragments@.len() as int) == windows(s@, start as int, limit, over),
            forall|k: int|
                0 <= k < fragments@.len() ==> is_fragment_of(
                    #[trigger] fragments@[k],
                    s@,
                    ranges[k],
                ),
        decreases s@.len() - start,
    {
        let end = find_window_end(s, &tables, start, chunk_char_limit);
        proof {
            lemma_window(s@, start as int, limit);
        }
        let raw = slice_subrange(s, start, end);
        let snippet = trim_end(raw);
        let ghost w = windows(s@, start as int, limit, over);
        if snippet.len() == 0 {
            start = end;
            continue;
        }
        let effective_end: usize = start + snippet.len();
        assert(effective_end == text_end(s@, start as int, limit));
        let fragment = make_fragment(s, &tables, total_bytes, start, effective_end);
        let ghost n = fragments@.len() as int;
        assert(w[0] == (start as int, effective_end as int));
        assert(w.len() > 0);
        assert(ranges.skip(n).len() > 0);
        assert(ranges[n] == ranges.skip(n)[0]);
        fragments.push(fragment);
        if effective_end >= s.len() {
            assert(w.len() == 1);
            assert(fragments@.len() == ranges.len());
            return fragments;
        }
        let back: usize = if overlap_char_limit < effective_end {
            effective_end - overlap_char_limit
        } else {
            0
        };
        let ghost next = next_start(start as int, effective_end as int, over);
        proof {
            let rest = windows(s@, next, limit, over);
            assert(w == seq![(start as int, effective_end as int)] + rest);
            assert(ranges.skip(n + 1) =~= ranges.skip(n).drop_first());
            assert(ranges.skip(n).drop_first() =~= rest);
        }
        if back > start {
            start = back;
        } else {
            start = effective_end;
        }
    }
    assert(windows(s@, start as int, limit, over).len() == 0);
    fragments
}

} // verus!
