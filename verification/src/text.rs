//! Text as a sequence of characters: the small vocabulary that every other
//! module states its results in, with the executable functions that compute it.

use vstd::prelude::*;
use vstd::slice::slice_subrange;
use vstd::utf8::{encode_utf8, encode_utf8_decode_utf8, is_ascii_chars};

verus! {

/// `String::push` appends one character.
pub assume_specification[ String::push ](s: &mut String, c: char)
    ensures
        final(s)@ == old(s)@.push(c),
;

/// The characters with the Unicode property `White_Space`.
pub open spec fn is_white_space(c: char) -> bool {
    ||| '\u{9}' <= c <= '\u{d}'
    ||| c == '\u{20}'
    ||| c == '\u{85}'
    ||| c == '\u{a0}'
    ||| c == '\u{1680}'
    ||| '\u{2000}' <= c <= '\u{200a}'
    ||| c == '\u{2028}'
    ||| c == '\u{2029}'
    ||| c == '\u{202f}'
    ||| c == '\u{205f}'
    ||| c == '\u{3000}'
}

/// Whether `c` is white space.
pub fn is_whitespace(c: char) -> (r: bool)
    ensures
        r == is_white_space(c),
{
    ('\u{9}' <= c && c <= '\u{d}') || c == '\u{20}' || c == '\u{85}' || c == '\u{a0}' || c
        == '\u{1680}' || ('\u{2000}' <= c && c <= '\u{200a}') || c == '\u{2028}' || c == '\u{2029}'
        || c == '\u{202f}' || c == '\u{205f}' || c == '\u{3000}'
}

/// The ASCII letters.
pub open spec fn is_ascii_letter(c: char) -> bool {
    ('a' <= c <= 'z') || ('A' <= c <= 'Z')
}

/// The ASCII digits.
pub open spec fn is_digit(c: char) -> bool {
    '0' <= c <= '9'
}

/// The ASCII letters and digits.
pub open spec fn is_ascii_alnum(c: char) -> bool {
    is_ascii_letter(c) || is_digit(c)
}

/// Whether `c` is an ASCII letter or digit.
pub fn is_ascii_alphanumeric(c: char) -> (r: bool)
    ensures
        r == is_ascii_alnum(c),
{
    ('a' <= c && c <= 'z') || ('A' <= c && c <= 'Z') || ('0' <= c && c <= '9')
}

/// The lower-case form of an ASCII letter; every other character is kept.
pub open spec fn lower_char(c: char) -> char {
    if 'A' <= c <= 'Z' {
        (c as u8 + 32) as char
    } else {
        c
    }
}

/// `s` with every ASCII letter in lower case.
pub open spec fn ascii_lower(s: Seq<char>) -> Seq<char> {
    Seq::new(s.len(), |i: int| lower_char(s[i]))
}

/// The lower-case form of an ASCII letter.
pub fn to_lower(c: char) -> (r: char)
    ensures
        r == lower_char(c),
{
    if 'A' <= c && c <= 'Z' {
        (c as u8 + 32) as char
    } else {
        c
    }
}

/// The characters of a string, in order.
pub fn chars_of(s: &str) -> (r: Vec<char>)
    ensures
        r@ == s@,
{
    let mut out: Vec<char> = Vec::new();
    for c in it: s.chars()
        invariant
            out@ == it.seq().take(it.index() as int),
    {
        out.push(c);
    }
    out
}

/// The string made of the characters `v`.
pub fn string_of(v: &[char]) -> (r: String)
    ensures
        r@ == v@,
{
    let mut out = String::new();
    let mut i: usize = 0;
    while i < v.len()
        invariant
            i <= v.len(),
            out@ == v@.take(i as int),
        decreases v.len() - i,
    {
        out.push(v[i]);
        i += 1;
    }
    assert(v@.take(v@.len() as int) =~= v@);
    out
}

/// `s` with every ASCII letter in lower case.
pub fn to_ascii_lowercase(s: &str) -> (r: String)
    ensures
        r@ == ascii_lower(s@),
{
    let v = chars_of(s);
    let mut out = String::new();
    let mut i: usize = 0;
    while i < v.len()
        invariant
            i <= v.len(),
            v@ == s@,
            out@ == ascii_lower(s@).take(i as int),
        decreases v.len() - i,
    {
        out.push(to_lower(v[i]));
        i += 1;
    }
    assert(ascii_lower(s@).take(s@.len() as int) =~= ascii_lower(s@));
    out
}

/// Whether two strings hold the same characters.
pub fn same_text(a: &str, b: &str) -> (r: bool)
    ensures
        r == (a@ == b@),
{
    let x = a.as_bytes();
    let y = b.as_bytes();
    proof {
        encode_utf8_decode_utf8(a@);
        encode_utf8_decode_utf8(b@);
    }
    if x.len() != y.len() {
        return false;
    }
    let mut i: usize = 0;
    while i < x.len()
        invariant
            x@ == encode_utf8(a@),
            y@ == encode_utf8(b@),
            x.len() == y.len(),
            i <= x.len(),
            x@.take(i as int) == y@.take(i as int),
        decreases x.len() - i,
    {
        if x[i] != y[i] {
            assert(x@ != y@);
            return false;
        }
        assert(x@.take(i + 1) =~= x@.take(i as int).push(x@[i as int]));
        assert(y@.take(i + 1) =~= y@.take(i as int).push(y@[i as int]));
        i += 1;
    }
    assert(x@ =~= x@.take(i as int));
    assert(y@ =~= y@.take(i as int));
    true
}

// ---------------------------------------------------------------------------
// Trimming
// ---------------------------------------------------------------------------

/// `s` without the white space it begins with.
pub open spec fn trimmed_start(s: Seq<char>) -> Seq<char>
    decreases s.len(),
{
    if s.len() > 0 && is_white_space(s[0]) {
        trimmed_start(s.drop_first())
    } else {
        s
    }
}

/// `s` without the white space it ends with.
pub open spec fn trimmed_end(s: Seq<char>) -> Seq<char>
    decreases s.len(),
{
    if s.len() > 0 && is_white_space(s.last()) {
        trimmed_end(s.drop_last())
    } else {
        s
    }
}

/// `s` without white space at either end.
pub open spec fn trimmed(s: Seq<char>) -> Seq<char> {
    trimmed_end(trimmed_start(s))
}

/// What trimming the end leaves is a prefix, it does not end in white space, and
/// only white space was cut off.
pub proof fn lemma_trimmed_end(s: Seq<char>)
    ensures
        trimmed_end(s).len() <= s.len(),
        trimmed_end(s) == s.take(trimmed_end(s).len() as int),
        trimmed_end(s).len() > 0 ==> !is_white_space(trimmed_end(s).last()),
        forall|i: int| trimmed_end(s).len() <= i < s.len() ==> is_white_space(#[trigger] s[i]),
    decreases s.len(),
{
    if s.len() > 0 && is_white_space(s.last()) {
        lemma_trimmed_end(s.drop_last());
        assert(trimmed_end(s) =~= s.take(trimmed_end(s).len() as int));
        assert forall|i: int| trimmed_end(s).len() <= i < s.len() implies is_white_space(
            #[trigger] s[i],
        ) by {
            if i < s.len() - 1 {
                assert(s.drop_last()[i] == s[i]);
            }
        }
    } else {
        assert(s =~= s.take(s.len() as int));
    }
}

/// What trimming the start leaves is a suffix that does not begin with white space,
/// and only white space was cut off.
pub proof fn lemma_trimmed_start(s: Seq<char>)
    ensures
        trimmed_start(s).len() <= s.len(),
        trimmed_start(s) == s.skip(s.len() - trimmed_start(s).len()),
        trimmed_start(s).len() > 0 ==> !is_white_space(trimmed_start(s)[0]),
        forall|i: int|
            0 <= i < s.len() - trimmed_start(s).len() ==> is_white_space(#[trigger] s[i]),
    decreases s.len(),
{
    if s.len() > 0 && is_white_space(s[0]) {
        lemma_trimmed_start(s.drop_first());
        assert(trimmed_start(s) =~= s.skip(s.len() - trimmed_start(s).len()));
        assert forall|i: int| 0 <= i < s.len() - trimmed_start(s).len() implies is_white_space(
            #[trigger] s[i],
        ) by {
            if i > 0 {
                assert(s.drop_first()[i - 1] == s[i]);
            }
        }
    } else {
        assert(s =~= s.skip(0));
    }
}

/// Trimming leaves a range of `s` that neither begins nor ends with white space.
pub proof fn lemma_trimmed(s: Seq<char>)
    ensures
        trimmed(s).len() <= s.len(),
        trimmed(s).len() > 0 ==> !is_white_space(trimmed(s)[0]) && !is_white_space(
            trimmed(s).last(),
        ),
        trimmed(s).len() == 0 ==> forall|i: int|
            0 <= i < s.len() ==> is_white_space(#[trigger] s[i]),
{
    lemma_trimmed_start(s);
    let t = trimmed_start(s);
    lemma_trimmed_end(t);
    if trimmed(s).len() > 0 {
        assert(trimmed(s)[0] == t[0]);
    } else {
        if t.len() > 0 {
            assert(is_white_space(t[0]));
        }
    }
}

/// Trimming takes white space away at both ends, all of it, and nothing else.
pub proof fn law_trimmed(s: Seq<char>)
    ensures
        exists|a: int, b: int|
            {
                &&& 0 <= a <= b <= s.len()
                &&& trimmed(s) == #[trigger] s.subrange(a, b)
                &&& forall|i: int| 0 <= i < a ==> is_white_space(s[i])
                &&& forall|i: int| b <= i < s.len() ==> is_white_space(s[i])
                &&& a < b ==> !is_white_space(s[a]) && !is_white_space(s[b - 1])
            },
{
    lemma_trimmed_start(s);
    let t = trimmed_start(s);
    let a = s.len() - t.len();
    lemma_trimmed_end(t);
    let b = a + trimmed(s).len();
    assert(trimmed(s) =~= s.subrange(a, b));
    assert forall|i: int| b <= i < s.len() implies is_white_space(s[i]) by {
        assert(t[i - a] == s[i]);
    }
    if a < b {
        assert(t[0] == s[a]);
        assert(trimmed_end(t).last() == s[b - 1]);
    }
}

/// The characters left after trimming the end.
pub fn trim_end(s: &[char]) -> (r: &[char])
    ensures
        r@ == trimmed_end(s@),
{
    let mut n: usize = s.len();
    assert(s@.take(n as int) =~= s@);
    while n > 0 && is_whitespace(s[n - 1])
        invariant
            n <= s.len(),
            trimmed_end(s@.take(n as int)) == trimmed_end(s@),
        decreases n,
    {
        assert(s@.take(n as int).drop_last() =~= s@.take(n - 1));
        n -= 1;
    }
    assert(s@.subrange(0, n as int) =~= s@.take(n as int));
    slice_subrange(s, 0, n)
}

/// The characters left after trimming the start.
pub fn trim_start(s: &[char]) -> (r: &[char])
    ensures
        r@ == trimmed_start(s@),
{
    let mut i: usize = 0;
    assert(s@.skip(0) =~= s@);
    while i < s.len() && is_whitespace(s[i])
        invariant
            i <= s.len(),
            trimmed_start(s@.skip(i as int)) == trimmed_start(s@),
        decreases s.len() - i,
    {
        assert(s@.skip(i as int).drop_first() =~= s@.skip(i + 1));
        i += 1;
    }
    assert(s@.subrange(i as int, s@.len() as int) =~= s@.skip(i as int));
    slice_subrange(s, i, s.len())
}

/// The characters left after trimming both ends.
pub fn trim(s: &[char]) -> (r: &[char])
    ensures
        r@ == trimmed(s@),
{
    trim_end(trim_start(s))
}

/// `s` without white space at either end.
pub fn trim_str(s: &str) -> (r: String)
    ensures
        r@ == trimmed(s@),
{
    let v = chars_of(s);
    string_of(trim(v.as_slice()))
}

// ---------------------------------------------------------------------------
// Unicode case
// ---------------------------------------------------------------------------

/// The text in lower case, as `str::to_lowercase` gives it.
pub uninterp spec fn lowercase(s: Seq<char>) -> Seq<char>;

/// Calls `str::to_lowercase`. On ASCII text that is ASCII lower case.
#[verifier::external_body]
pub(crate) fn to_lowercase(s: &str) -> (r: String)
    ensures
        r@ == lowercase(s@),
        is_ascii_chars(s@) ==> r@ == ascii_lower(s@),
{
    s.to_lowercase()
}

/// Whether `char::is_alphanumeric` holds of a character.
pub uninterp spec fn alphanumeric(c: char) -> bool;

/// Calls `char::is_alphanumeric`. Of ASCII characters the letters and digits are
/// alphanumeric.
#[verifier::external_body]
pub(crate) fn is_alphanumeric(c: char) -> (r: bool)
    ensures
        r == alphanumeric(c),
        c as u32 <= 0x7F ==> r == is_ascii_alnum(c),
{
    c.is_alphanumeric()
}

/// A text without white space at its ends stays as it is, and so does one that was trimmed.
pub proof fn law_trimmed_stays(s: Seq<char>)
    ensures
        s.len() == 0 || (!is_white_space(s[0]) && !is_white_space(s.last())) ==> trimmed(s) == s,
        trimmed(trimmed(s)) == trimmed(s),
{
    if s.len() == 0 || (!is_white_space(s[0]) && !is_white_space(s.last())) {
        assert(trimmed_start(s) == s);
    }
    lemma_trimmed(s);
    let t = trimmed(s);
    if t.len() > 0 {
        assert(trimmed_start(t) == t);
    }
}

/// In lower case each of the capital letters of ASCII becomes the letter 32 places behind it,
/// and every other character stays as it is. Nothing is left to change then.
pub proof fn law_ascii_lower(s: Seq<char>, i: int)
    requires
        0 <= i < s.len(),
    ensures
        ascii_lower(s).len() == s.len(),
        65 <= s[i] as int <= 90 ==> ascii_lower(s)[i] as int == s[i] as int + 32,
        !(65 <= s[i] as int <= 90) ==> ascii_lower(s)[i] == s[i],
        ascii_lower(ascii_lower(s)) == ascii_lower(s),
{
    assert(ascii_lower(ascii_lower(s)) =~= ascii_lower(s));
}

/// A letter or a digit of ASCII is no white space, a letter is no digit, and the case of a
/// letter does not make it one.
pub proof fn law_ascii_classes(c: char)
    ensures
        is_ascii_alnum(c) ==> !is_white_space(c),
        is_ascii_letter(c) ==> !is_digit(c),
        is_ascii_alnum(c) <==> is_ascii_letter(c) || is_digit(c),
        is_ascii_letter(lower_char(c)) <==> is_ascii_letter(c),
        is_digit(lower_char(c)) <==> is_digit(c),
        is_white_space(lower_char(c)) <==> is_white_space(c),
        is_ascii_letter(c) ==> 97 <= lower_char(c) as int <= 122,
        97 <= c as int <= 122 ==> is_ascii_letter(c),
        is_digit(c) <==> 48 <= c as int <= 57,
{
}

/// Of the ASCII characters the space and those from the tabulator to the carriage return are
/// white space.
pub proof fn law_ascii_white_space(c: char)
    requires
        c as int <= 127,
    ensures
        is_white_space(c) <==> c as int == 32 || 9 <= c as int <= 13,
{
}

} // verus!
