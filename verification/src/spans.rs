//! Pieces of a text that are given by byte offsets.

use vstd::prelude::*;
use vstd::slice::slice_subrange;
use crate::sizes::{boundary, char_width, lemma_size_push, lemma_size_take, utf8_size};
use crate::text::string_of;

verus! {

/// The offsets are those of a piece of the text: each stands between two characters, or
/// at an end.
pub open spec fn is_span(s: Seq<char>, start: usize, end: usize) -> bool {
    start <= end && (exists|i: int| boundary(s, start as int, i)) && (exists|j: int|
        boundary(s, end as int, j))
}

/// The character that stands at a byte offset.
pub open spec fn char_index(s: Seq<char>, at: usize) -> int {
    choose|i: int| boundary(s, at as int, i)
}

/// The piece of the text between two byte offsets.
pub open spec fn piece(s: Seq<char>, start: usize, end: usize) -> Seq<char> {
    s.subrange(char_index(s, start), char_index(s, end))
}

/// Where a piece lies among the characters.
pub proof fn lemma_span(s: Seq<char>, start: usize, end: usize)
    requires
        is_span(s, start, end),
    ensures
        0 <= char_index(s, start) <= char_index(s, end) <= s.len(),
        boundary(s, start as int, char_index(s, start)),
        boundary(s, end as int, char_index(s, end)),
        end <= utf8_size(s),
{
    let i = char_index(s, start);
    let j = char_index(s, end);
    if j < i {
        lemma_size_take(s, j, i);
    }
    lemma_size_take(s, j, s.len() as int);
}

/// The offset of each character, and at the end the size of the text.
pub open spec fn offsets_of(s: Seq<char>, offsets: Seq<usize>) -> bool {
    &&& offsets.len() == s.len() + 1
    &&& forall|i: int| 0 <= i <= s.len() ==> #[trigger] offsets[i] == utf8_size(s.take(i))
}

/// The offset of each character of a text.
pub fn byte_offsets(s: &[char]) -> (r: Vec<usize>)
    requires
        utf8_size(s@) <= usize::MAX,
    ensures
        offsets_of(s@, r@),
{
    let mut out: Vec<usize> = Vec::new();
    let mut total: usize = 0;
    let mut i: usize = 0;
    assert(s@.take(0) =~= Seq::<char>::empty());
    while i < s.len()
        invariant
            i <= s@.len(),
            utf8_size(s@) <= usize::MAX,
            out@.len() == i,
            total == utf8_size(s@.take(i as int)),
            forall|k: int| 0 <= k < i ==> #[trigger] out@[k] == utf8_size(s@.take(k)),
        decreases s.len() - i,
    {
        out.push(total);
        proof {
            assert(s@.take(i + 1) =~= s@.take(i as int).push(s@[i as int]));
            lemma_size_push(s@.take(i as int), s@[i as int]);
            lemma_size_take(s@, i + 1, s@.len() as int);
        }
        total += char_width(s[i]);
        i += 1;
    }
    out.push(total);
    out
}

/// The character that stands at the byte offset.
pub fn index_of_byte(s: &[char], offsets: &Vec<usize>, at: usize) -> (r: usize)
    requires
        offsets_of(s@, offsets@),
        exists|i: int| boundary(s@, at as int, i),
    ensures
        r == char_index(s@, at),
        boundary(s@, at as int, r as int),
{
    let ghost want = char_index(s@, at);
    let mut lo: usize = 0;
    let mut hi: usize = offsets.len() - 1;
    while lo < hi
        invariant
            offsets_of(s@, offsets@),
            boundary(s@, at as int, want),
            lo <= want <= hi < offsets@.len(),
        decreases hi - lo,
    {
        let mid: usize = lo + (hi - lo) / 2;
        if offsets[mid] < at {
            proof {
                if want <= mid {
                    lemma_size_take(s@, want, mid as int);
                }
            }
            lo = mid + 1;
        } else {
            proof {
                if want > mid {
                    lemma_size_take(s@, mid as int, want);
                }
            }
            hi = mid;
        }
    }
    lo
}

/// The piece of the text between two byte offsets.
pub fn cut_piece(s: &[char], offsets: &Vec<usize>, start: usize, end: usize) -> (r: String)
    requires
        offsets_of(s@, offsets@),
        is_span(s@, start, end),
    ensures
        r@ == piece(s@, start, end),
{
    let i = index_of_byte(s, offsets, start);
    let j = index_of_byte(s, offsets, end);
    proof {
        lemma_span(s@, start, end);
    }
    string_of(slice_subrange(s, i, j))
}

} // verus!
