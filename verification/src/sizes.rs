//! How many bytes a text takes in UTF-8, and how many lines it has.

use vstd::prelude::*;
use vstd::utf8::{encode_utf8, encode_scalar};

verus! {

/// The number of bytes that `s` takes in UTF-8.
pub open spec fn utf8_size(s: Seq<char>) -> nat {
    encode_utf8(s).len()
}

/// The number of bytes that one character takes in UTF-8.
pub open spec fn utf8_width(c: char) -> nat {
    if c as u32 <= 0x7F {
        1
    } else if c as u32 <= 0x7FF {
        2
    } else if c as u32 <= 0xFFFF {
        3
    } else {
        4
    }
}

/// The encoding of a concatenation is the concatenation of the encodings.
pub proof fn lemma_encode_concat(a: Seq<char>, b: Seq<char>)
    ensures
        encode_utf8(a + b) == encode_utf8(a) + encode_utf8(b),
        utf8_size(a + b) == utf8_size(a) + utf8_size(b),
    decreases a.len(),
{
    if a.len() == 0 {
        assert(a + b =~= b);
        assert(encode_utf8(a + b) =~= encode_utf8(a) + encode_utf8(b));
    } else {
        lemma_encode_concat(a.drop_first(), b);
        assert((a + b).drop_first() =~= a.drop_first() + b);
        assert(encode_utf8(a + b) =~= encode_utf8(a) + encode_utf8(b));
    }
}

/// One more character adds its width.
pub proof fn lemma_size_push(s: Seq<char>, c: char)
    ensures
        utf8_size(s.push(c)) == utf8_size(s) + utf8_width(c),
{
    let one = seq![c];
    assert(s.push(c) =~= s + one);
    lemma_encode_concat(s, one);
    assert(one.drop_first() =~= Seq::<char>::empty());
    assert(encode_utf8(one.drop_first()).len() == 0);
    assert(encode_utf8(one) =~= encode_scalar(c as u32) + encode_utf8(one.drop_first()));
}

/// A longer prefix takes more bytes.
pub proof fn lemma_size_take(s: Seq<char>, i: int, j: int)
    requires
        0 <= i <= j <= s.len(),
    ensures
        utf8_size(s.take(i)) <= utf8_size(s.take(j)) <= utf8_size(s),
        utf8_size(s.subrange(i, j)) == utf8_size(s.take(j)) - utf8_size(s.take(i)),
        encode_utf8(s).subrange(
            utf8_size(s.take(i)) as int,
            utf8_size(s.take(j)) as int,
        ) == encode_utf8(s.subrange(i, j)),
        i < j ==> utf8_size(s.take(i)) < utf8_size(s.take(j)),
{
    let a = s.take(i);
    let b = s.subrange(i, j);
    let c = s.skip(j);
    lemma_encode_concat(a, b);
    lemma_encode_concat(a + b, c);
    assert(a + b =~= s.take(j));
    assert((a + b) + c =~= s);
    assert(encode_utf8(s).subrange(
        utf8_size(s.take(i)) as int,
        utf8_size(s.take(j)) as int,
    ) =~= encode_utf8(s.subrange(i, j)));
    if i < j {
        assert(b.len() > 0);
        assert(encode_utf8(b).len() >= encode_scalar(b[0] as u32).len());
    }
}

/// The number of bytes that one character takes in UTF-8.
pub fn char_width(c: char) -> (r: usize)
    ensures
        r == utf8_width(c),
        1 <= r <= 4,
{
    let v = c as u32;
    if v <= 0x7F {
        1
    } else if v <= 0x7FF {
        2
    } else if v <= 0xFFFF {
        3
    } else {
        4
    }
}

/// The number of bytes of a string, which always fits in `usize`.
pub fn byte_length(s: &str) -> (r: usize)
    ensures
        r == utf8_size(s@),
{
    s.as_bytes().len()
}

/// The number of bytes that `s` takes in UTF-8, where it fits in `usize`.
pub fn size_of_chars(s: &[char]) -> (r: usize)
    requires
        utf8_size(s@) <= usize::MAX,
    ensures
        r == utf8_size(s@),
{
    let mut total: usize = 0;
    let mut i: usize = 0;
    assert(s@.take(0) =~= Seq::<char>::empty());
    while i < s.len()
        invariant
            i <= s.len(),
            utf8_size(s@) <= usize::MAX,
            total == utf8_size(s@.take(i as int)),
        decreases s.len() - i,
    {
        proof {
            assert(s@.take(i + 1) =~= s@.take(i as int).push(s@[i as int]));
            lemma_size_push(s@.take(i as int), s@[i as int]);
            lemma_size_take(s@, i + 1, s@.len() as int);
        }
        total += char_width(s[i]);
        i += 1;
    }
    assert(s@.take(i as int) =~= s@);
    total
}

/// The number of times that `c` occurs in `s`.
pub open spec fn count_of(s: Seq<char>, c: char) -> nat
    decreases s.len(),
{
    if s.len() == 0 {
        0
    } else {
        count_of(s.drop_last(), c) + if s.last() == c {
            1nat
        } else {
            0nat
        }
    }
}

/// A text holds a character at most as often as it has characters, and a prefix
/// holds it at most as often as the whole.
pub proof fn lemma_count_take(s: Seq<char>, c: char, i: int)
    requires
        0 <= i <= s.len(),
    ensures
        count_of(s.take(i), c) <= i,
        count_of(s.take(i), c) <= count_of(s, c) <= s.len(),
        i < s.len() ==> count_of(s.take(i + 1), c) == count_of(s.take(i), c) + if s[i] == c {
            1nat
        } else {
            0nat
        },
    decreases s.len(),
{
    if i < s.len() {
        assert(s.take(i + 1).drop_last() =~= s.take(i));
    }
    if s.len() == 0 {
        assert(s.take(i) =~= s);
    } else {
        if i < s.len() {
            lemma_count_take(s.drop_last(), c, i);
            assert(s.drop_last().take(i) =~= s.take(i));
        } else {
            lemma_count_take(s.drop_last(), c, i - 1);
            assert(s.take(i) =~= s);
        }
    }
}

/// Of two prefixes the longer holds a character at least as often.
pub proof fn lemma_count_monotone(s: Seq<char>, c: char, i: int, j: int)
    requires
        0 <= i <= j <= s.len(),
    ensures
        count_of(s.take(i), c) <= count_of(s.take(j), c),
{
    assert(s.take(j).take(i) =~= s.take(i));
    lemma_count_take(s.take(j), c, i);
}

/// Byte offset `at` of `s` is the start of its character `i`, or its end.
pub open spec fn boundary(s: Seq<char>, at: int, i: int) -> bool {
    0 <= i <= s.len() && utf8_size(s.take(i)) == at
}

/// The character at a byte offset is unique.
pub proof fn lemma_boundary_unique(s: Seq<char>, at: int, i: int, j: int)
    requires
        boundary(s, at, i),
        boundary(s, at, j),
    ensures
        i == j,
{
    if i < j {
        lemma_size_take(s, i, j);
    } else if j < i {
        lemma_size_take(s, j, i);
    }
}

/// The character that starts at a byte offset, where one does.
pub fn char_at_byte(s: &[char], at: usize) -> (r: Option<usize>)
    ensures
        match r {
            Some(i) => boundary(s@, at as int, i as int),
            None => forall|i: int| !boundary(s@, at as int, i),
        },
{
    let mut total: usize = 0;
    let mut i: usize = 0;
    assert(s@.take(0) =~= Seq::<char>::empty());
    while i < s.len() && total < at
        invariant
            i <= s.len(),
            total == utf8_size(s@.take(i as int)),
            forall|j: int| 0 <= j < i ==> utf8_size(#[trigger] s@.take(j)) < at,
            i > 0 ==> utf8_size(s@.take(i - 1)) < at,
        decreases s.len() - i,
    {
        let w: usize = char_width(s[i]);
        proof {
            assert(s@.take(i + 1) =~= s@.take(i as int).push(s@[i as int]));
            lemma_size_push(s@.take(i as int), s@[i as int]);
        }
        if w > at - total {
            proof {
                assert forall|j: int| !boundary(s@, at as int, j) by {
                    if 0 <= j <= s@.len() {
                        if j > i {
                            lemma_size_take(s@, i + 1, j);
                        }
                    }
                }
            }
            return None;
        }
        total += w;
        i += 1;
    }
    if total == at {
        return Some(i);
    }
    proof {
        assert forall|j: int| !boundary(s@, at as int, j) by {
            if 0 <= j <= s@.len() && j >= i {
                lemma_size_take(s@, i as int, j);
                assert(s@.take(s@.len() as int) =~= s@);
            }
        }
    }
    None
}

/// The occurrences of a character are those in the first part of a text and those in the
/// second.
pub proof fn law_count_parts(a: Seq<char>, b: Seq<char>, c: char, d: char)
    ensures
        count_of(a + b, c) == count_of(a, c) + count_of(b, c),
        count_of(seq![d], c) == (if c == d {
            1nat
        } else {
            0nat
        }),
    decreases b.len(),
{
    assert(seq![d].drop_last() =~= Seq::<char>::empty());
    assert(count_of(Seq::<char>::empty(), c) == 0);
    assert(count_of(seq![d].drop_last(), c) == 0);
    if b.len() == 0 {
        assert(a + b =~= a);
    } else {
        assert((a + b).drop_last() =~= a + b.drop_last());
        law_count_parts(a, b.drop_last(), c, d);
    }
}

} // verus!
