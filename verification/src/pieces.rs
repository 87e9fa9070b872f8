//! Finding, splitting, joining and replacing inside a text.

use vstd::prelude::*;
use vstd::slice::slice_subrange;
use crate::sizes::count_of;
use crate::text::{
    chars_of, is_white_space, is_whitespace, lemma_trimmed_start, same_text, string_of, trim_start,
    trimmed_start,
};

verus! {

/// The position of the first `c` in `s`, or the length of `s` where it does not occur.
pub open spec fn position_of(s: Seq<char>, c: char) -> int
    decreases s.len(),
{
    if s.len() == 0 || s[0] == c {
        0
    } else {
        1 + position_of(s.drop_first(), c)
    }
}

/// `position_of` gives the least position that holds `c`.
pub proof fn lemma_position_of(s: Seq<char>, c: char)
    ensures
        0 <= position_of(s, c) <= s.len(),
        position_of(s, c) < s.len() ==> s[position_of(s, c)] == c,
        forall|i: int| 0 <= i < position_of(s, c) ==> s[i] != c,
    decreases s.len(),
{
    if s.len() == 0 || s[0] == c {
    } else {
        lemma_position_of(s.drop_first(), c);
        let p = position_of(s.drop_first(), c);
        assert forall|i: int| 0 <= i < position_of(s, c) implies s[i] != c by {
            if i > 0 {
                assert(s.drop_first()[i - 1] == s[i]);
            }
        }
    }
}

/// A position that holds `c` with no `c` before it is `position_of`.
pub proof fn lemma_position_unique(s: Seq<char>, c: char, p: int)
    requires
        0 <= p <= s.len(),
        p < s.len() ==> s[p] == c,
        forall|i: int| 0 <= i < p ==> s[i] != c,
    ensures
        position_of(s, c) == p,
{
    lemma_position_of(s, c);
    let q = position_of(s, c);
    if q < p {
        assert(s[q] != c);
    } else if p < q {
        assert(s[p] != c);
    }
}

/// The position of the first `c` in `s`, or the length of `s`.
pub fn find_char(s: &[char], c: char) -> (r: usize)
    ensures
        r == position_of(s@, c),
        r <= s@.len(),
{
    let mut i: usize = 0;
    while i < s.len() && s[i] != c
        invariant
            i <= s.len(),
            forall|j: int| 0 <= j < i ==> s@[j] != c,
        decreases s.len() - i,
    {
        i += 1;
    }
    proof {
        lemma_position_unique(s@, c, i as int);
    }
    i
}

/// `needle` stands in `s` at position `i`.
pub open spec fn occurs_at(s: Seq<char>, needle: Seq<char>, i: int) -> bool {
    0 <= i && i + needle.len() <= s.len() && s.subrange(i, i + needle.len()) == needle
}

/// `needle` stands somewhere in `s`.
pub open spec fn contains_text(s: Seq<char>, needle: Seq<char>) -> bool {
    exists|i: int| occurs_at(s, needle, i)
}

/// `p` is the first position at which `needle` stands in `s`.
pub open spec fn first_occurrence(s: Seq<char>, needle: Seq<char>, p: int) -> bool {
    occurs_at(s, needle, p) && forall|i: int| 0 <= i < p ==> !occurs_at(s, needle, i)
}

/// `s` begins with `prefix`.
pub open spec fn begins_with(s: Seq<char>, prefix: Seq<char>) -> bool {
    occurs_at(s, prefix, 0)
}

/// `s` ends with `suffix`.
pub open spec fn finishes_with(s: Seq<char>, suffix: Seq<char>) -> bool {
    occurs_at(s, suffix, s.len() - suffix.len())
}

/// Whether `needle` stands in `s` at `i`.
pub fn matches_at(s: &[char], needle: &[char], i: usize) -> (r: bool)
    ensures
        r == occurs_at(s@, needle@, i as int),
{
    if i > s.len() || needle.len() > s.len() - i {
        return false;
    }
    let mut k: usize = 0;
    while k < needle.len()
        invariant
            k <= needle.len(),
            i + needle.len() <= s.len(),
            forall|j: int| 0 <= j < k ==> s@[i + j] == needle@[j],
        decreases needle.len() - k,
    {
        if s[i + k] != needle[k] {
            proof {
                if s@.subrange(i as int, i + needle@.len()) == needle@ {
                    assert(s@.subrange(i as int, i + needle@.len())[k as int] == needle@[k as int]);
                }
            }
            return false;
        }
        k += 1;
    }
    assert(s@.subrange(i as int, i + needle@.len()) =~= needle@);
    true
}

/// The first position at or after `from` at which `needle` stands in `s`.
pub fn find_from(s: &[char], needle: &[char], from: usize) -> (r: Option<usize>)
    ensures
        match r {
            Some(p) => from <= p && occurs_at(s@, needle@, p as int) && forall|i: int|
                from <= i < p ==> !occurs_at(s@, needle@, i),
            None => forall|i: int| from <= i ==> !occurs_at(s@, needle@, i),
        },
{
    let mut i: usize = from;
    while i <= s.len() && needle.len() <= s.len() - i
        invariant
            from <= i,
            from <= s.len() ==> i <= s.len() + 1,
            forall|j: int| from <= j < i ==> !occurs_at(s@, needle@, j),
        decreases s.len() + 1 - i,
    {
        if matches_at(s, needle, i) {
            return Some(i);
        }
        if i == s.len() {
            assert(forall|j: int| i < j ==> !occurs_at(s@, needle@, j));
            return None;
        }
        i += 1;
    }
    None
}

/// Whether `needle` stands anywhere in `s`.
pub fn contains(s: &[char], needle: &[char]) -> (r: bool)
    ensures
        r == contains_text(s@, needle@),
{
    match find_from(s, needle, 0) {
        Some(p) => {
            assert(occurs_at(s@, needle@, p as int));
            true
        },
        None => false,
    }
}

/// Whether the string `needle` stands anywhere in the string `s`.
pub fn str_contains(s: &str, needle: &str) -> (r: bool)
    ensures
        r == contains_text(s@, needle@),
{
    let a = chars_of(s);
    let b = chars_of(needle);
    contains(a.as_slice(), b.as_slice())
}

/// Whether `s` begins with `prefix`.
pub fn starts_with(s: &[char], prefix: &str) -> (r: bool)
    ensures
        r == begins_with(s@, prefix@),
{
    let p = chars_of(prefix);
    matches_at(s, p.as_slice(), 0)
}

/// Whether `s` ends with `suffix`.
pub fn ends_with(s: &[char], suffix: &str) -> (r: bool)
    ensures
        r == finishes_with(s@, suffix@),
{
    let p = chars_of(suffix);
    if p.len() > s.len() {
        return false;
    }
    matches_at(s, p.as_slice(), s.len() - p.len())
}

/// Whether the string `s` begins with `prefix`.
pub fn str_starts_with(s: &str, prefix: &str) -> (r: bool)
    ensures
        r == begins_with(s@, prefix@),
{
    let a = chars_of(s);
    starts_with(a.as_slice(), prefix)
}

// ---------------------------------------------------------------------------
// Splitting
// ---------------------------------------------------------------------------

/// The parts of `s` between the separators `c`: one more part than separators.
pub open spec fn split_on(s: Seq<char>, c: char) -> Seq<Seq<char>>
    decreases s.len(),
{
    let p = position_of(s, c);
    if p < 0 || p >= s.len() {
        seq![s]
    } else {
        seq![s.take(p)] + split_on(s.skip(p + 1), c)
    }
}

/// A line without the carriage return it may end in.
pub open spec fn without_cr(s: Seq<char>) -> Seq<char> {
    if s.len() > 0 && s.last() == '\r' {
        s.drop_last()
    } else {
        s
    }
}

/// The lines of `s`: each ends in a line feed, or in a carriage return and a line
/// feed, and the last one may do without.
pub open spec fn lines_of(s: Seq<char>) -> Seq<Seq<char>>
    decreases s.len(),
{
    let p = position_of(s, '\n');
    if s.len() == 0 {
        Seq::empty()
    } else if p < 0 || p >= s.len() {
        seq![s]
    } else {
        seq![without_cr(s.take(p))] + lines_of(s.skip(p + 1))
    }
}

/// The views of a sequence of strings.
pub open spec fn texts(v: Seq<String>) -> Seq<Seq<char>> {
    Seq::new(v.len(), |i: int| v[i]@)
}

/// One more string, one more view.
pub proof fn lemma_texts_push(v: Seq<String>, s: String)
    ensures
        texts(v.push(s)) == texts(v).push(s@),
{
    assert(texts(v.push(s)) =~= texts(v).push(s@));
}

/// The parts of `s` between the separators `c`.
pub fn split(s: &[char], c: char) -> (r: Vec<String>)
    ensures
        texts(r@) == split_on(s@, c),
{
    let mut out: Vec<String> = Vec::new();
    let mut start: usize = 0;
    assert(s@.skip(0) =~= s@);
    loop
        invariant
            start <= s.len(),
            texts(out@) + split_on(s@.skip(start as int), c) == split_on(s@, c),
        decreases s.len() - start,
    {
        let rest = slice_subrange(s, start, s.len());
        assert(rest@ =~= s@.skip(start as int));
        let p = find_char(rest, c);
        let ghost before = out@;
        if p == rest.len() {
            let part = string_of(rest);
            out.push(part);
            proof {
                lemma_texts_push(before, part);
                assert(texts(out@) =~= split_on(s@, c));
            }
            return out;
        }
        let piece = string_of(slice_subrange(rest, 0, p));
        assert(piece@ =~= rest@.take(p as int));
        out.push(piece);
        proof {
            lemma_texts_push(before, piece);
            assert(rest@.skip(p + 1) =~= s@.skip(start + p + 1));
            assert(texts(out@) + split_on(s@.skip(start + p + 1), c) =~= texts(before) + (seq![
                rest@.take(p as int),
            ] + split_on(rest@.skip(p + 1), c)));
        }
        start = start + p + 1;
    }
}

/// The lines of `s`.
pub fn lines(s: &[char]) -> (r: Vec<String>)
    ensures
        texts(r@) == lines_of(s@),
{
    let mut out: Vec<String> = Vec::new();
    let mut start: usize = 0;
    assert(s@.skip(0) =~= s@);
    assert(texts(out@) =~= Seq::<Seq<char>>::empty());
    while start < s.len()
        invariant
            start <= s.len(),
            texts(out@) + lines_of(s@.skip(start as int)) == lines_of(s@),
        decreases s.len() - start,
    {
        let rest = slice_subrange(s, start, s.len());
        assert(rest@ =~= s@.skip(start as int));
        let p = find_char(rest, '\n');
        let ghost before = out@;
        if p == rest.len() {
            let part = string_of(rest);
            out.push(part);
            proof {
                lemma_texts_push(before, part);
                assert(texts(out@) =~= lines_of(s@));
            }
            return out;
        }
        let full = slice_subrange(rest, 0, p);
        assert(full@ =~= rest@.take(p as int));
        let piece = if p > 0 && full[p - 1] == '\r' {
            let cut = slice_subrange(full, 0, p - 1);
            assert(cut@ =~= full@.drop_last());
            string_of(cut)
        } else {
            string_of(full)
        };
        assert(piece@ == without_cr(rest@.take(p as int)));
        out.push(piece);
        proof {
            lemma_texts_push(before, piece);
            assert(rest@.skip(p + 1) =~= s@.skip(start + p + 1));
            assert(texts(out@) + lines_of(s@.skip(start + p + 1)) =~= texts(before) + (seq![
                without_cr(rest@.take(p as int)),
            ] + lines_of(rest@.skip(p + 1))));
        }
        start = start + p + 1;
    }
    assert(s@.skip(start as int) =~= Seq::<char>::empty());
    assert(texts(out@) =~= lines_of(s@));
    out
}

/// The lines of a string.
pub fn str_lines(s: &str) -> (r: Vec<String>)
    ensures
        texts(r@) == lines_of(s@),
{
    let v = chars_of(s);
    lines(v.as_slice())
}

// ---------------------------------------------------------------------------
// Joining and replacing
// ---------------------------------------------------------------------------

/// The parts one after the other, with `sep` between each two.
pub open spec fn joined(parts: Seq<Seq<char>>, sep: Seq<char>) -> Seq<char>
    decreases parts.len(),
{
    if parts.len() == 0 {
        Seq::empty()
    } else if parts.len() == 1 {
        parts[0]
    } else {
        joined(parts.drop_last(), sep) + sep + parts.last()
    }
}

/// The strings one after the other, with `sep` between each two.
pub fn join(parts: &[String], sep: &str) -> (r: String)
    ensures
        r@ == joined(texts(parts@), sep@),
{
    let mut out = String::new();
    let mut i: usize = 0;
    while i < parts.len()
        invariant
            i <= parts.len(),
            out@ == joined(texts(parts@).take(i as int), sep@),
        decreases parts.len() - i,
    {
        if i > 0 {
            out.append(sep);
        }
        out.append(parts[i].as_str());
        assert(texts(parts@).take(i + 1).drop_last() =~= texts(parts@).take(i as int));
        assert(texts(parts@).take(i + 1).last() == parts@[i as int]@);
        i += 1;
    }
    assert(texts(parts@).take(i as int) =~= texts(parts@));
    out
}

/// `s` with every `a` replaced by `b`.
pub open spec fn replaced_char(s: Seq<char>, a: char, b: char) -> Seq<char> {
    Seq::new(s.len(), |i: int| if s[i] == a { b } else { s[i] })
}

/// `s` with every `a` replaced by `b`.
pub fn replace_char(s: &str, a: char, b: char) -> (r: String)
    ensures
        r@ == replaced_char(s@, a, b),
{
    let v = chars_of(s);
    let mut out = String::new();
    let mut i: usize = 0;
    while i < v.len()
        invariant
            i <= v.len(),
            v@ == s@,
            out@ == replaced_char(s@, a, b).take(i as int),
        decreases v.len() - i,
    {
        if v[i] == a {
            out.push(b);
        } else {
            out.push(v[i]);
        }
        i += 1;
    }
    assert(replaced_char(s@, a, b).take(i as int) =~= replaced_char(s@, a, b));
    out
}

/// Whether one of the strings is `s`.
pub fn contains_string(v: &Vec<String>, s: &str) -> (r: bool)
    ensures
        r == texts(v@).contains(s@),
{
    let mut i: usize = 0;
    while i < v.len()
        invariant
            i <= v.len(),
            forall|j: int| 0 <= j < i ==> v@[j]@ != s@,
        decreases v.len() - i,
    {
        if same_text(v[i].as_str(), s) {
            assert(texts(v@)[i as int] == s@);
            return true;
        }
        i += 1;
    }
    proof {
        if texts(v@).contains(s@) {
            let j = choose|j: int| 0 <= j < texts(v@).len() && texts(v@)[j] == s@;
            assert(v@[j]@ == s@);
        }
    }
    false
}

/// Appends a string to a list of strings.
pub fn push_text(out: &mut Vec<String>, text: String)
    ensures
        texts(final(out)@) == texts(old(out)@).push(text@),
        final(out)@ == old(out)@.push(text),
{
    let ghost before = out@;
    out.push(text);
    proof {
        lemma_texts_push(before, text);
    }
}

/// The texts that are not empty.
pub open spec fn filled(parts: Seq<Seq<char>>) -> Seq<Seq<char>>
    decreases parts.len(),
{
    if parts.len() == 0 {
        parts
    } else if parts.last().len() > 0 {
        filled(parts.drop_last()).push(parts.last())
    } else {
        filled(parts.drop_last())
    }
}

/// The texts that are not empty.
pub fn keep_filled(parts: &Vec<String>) -> (r: Vec<String>)
    ensures
        texts(r@) == filled(texts(parts@)),
{
    let ghost all = texts(parts@);
    let mut out: Vec<String> = Vec::new();
    let mut i: usize = 0;
    assert(texts(out@) =~= filled(all.take(0)));
    while i < parts.len()
        invariant
            i <= parts@.len(),
            all == texts(parts@),
            texts(out@) == filled(all.take(i as int)),
        decreases parts.len() - i,
    {
        proof {
            assert(all.take(i + 1).drop_last() =~= all.take(i as int));
            assert(all.take(i + 1).last() == parts@[i as int]@);
        }
        if !parts[i].as_str().is_empty() {
            push_text(&mut out, parts[i].clone());
        }
        i += 1;
    }
    assert(all.take(i as int) =~= all);
    out
}

/// Where no text is empty all are kept.
pub proof fn lemma_filled_all(parts: Seq<Seq<char>>)
    requires
        forall|i: int| 0 <= i < parts.len() ==> (#[trigger] parts[i]).len() > 0,
    ensures
        filled(parts) == parts,
    decreases parts.len(),
{
    if parts.len() > 0 {
        lemma_filled_all(parts.drop_last());
        assert(parts.drop_last().push(parts.last()) =~= parts);
    }
}

// ---------------------------------------------------------------------------
// Words
// ---------------------------------------------------------------------------

/// The length of the run of characters, at the start of `s`, that are not white space.
pub open spec fn word_length(s: Seq<char>) -> int
    decreases s.len(),
{
    if s.len() == 0 || is_white_space(s[0]) {
        0
    } else {
        1 + word_length(s.drop_first())
    }
}

proof fn lemma_word_length(s: Seq<char>)
    ensures
        0 <= word_length(s) <= s.len(),
        s.len() > 0 && !is_white_space(s[0]) ==> word_length(s) > 0,
        forall|i: int| 0 <= i < word_length(s) ==> !is_white_space(#[trigger] s[i]),
        word_length(s) < s.len() ==> is_white_space(s[word_length(s)]),
    decreases s.len(),
{
    if s.len() == 0 || is_white_space(s[0]) {
    } else {
        lemma_word_length(s.drop_first());
        assert forall|i: int| 0 <= i < word_length(s) implies !is_white_space(#[trigger] s[i]) by {
            if i > 0 {
                assert(s.drop_first()[i - 1] == s[i]);
            }
        }
    }
}

/// The words of `s`: its longest runs of characters that are not white space.
pub open spec fn words_of(s: Seq<char>) -> Seq<Seq<char>>
    decreases s.len(),
    via words_decreases
{
    let t = trimmed_start(s);
    if t.len() == 0 {
        Seq::empty()
    } else {
        seq![t.take(word_length(t))] + words_of(t.skip(word_length(t)))
    }
}

#[via_fn]
proof fn words_decreases(s: Seq<char>) {
    lemma_trimmed_start(s);
    lemma_word_length(trimmed_start(s));
}

/// The words of `s`.
pub fn split_whitespace(s: &[char]) -> (r: Vec<String>)
    ensures
        texts(r@) == words_of(s@),
{
    let mut out: Vec<String> = Vec::new();
    let mut start: usize = 0;
    assert(s@.skip(0) =~= s@);
    assert(texts(out@) =~= Seq::<Seq<char>>::empty());
    assert(texts(out@) + words_of(s@) =~= words_of(s@));
    loop
        invariant
            start <= s.len(),
            texts(out@) + words_of(s@.skip(start as int)) == words_of(s@),
        decreases s.len() - start,
    {
        let rest = slice_subrange(s, start, s.len());
        assert(rest@ =~= s@.skip(start as int));
        let t = trim_start(rest);
        proof {
            lemma_trimmed_start(rest@);
            lemma_word_length(t@);
        }
        if t.len() == 0 {
            assert(texts(out@) =~= words_of(s@));
            return out;
        }
        let mut n: usize = 0;
        assert(t@.skip(0) =~= t@);
        while n < t.len() && !is_whitespace(t[n])
            invariant
                n <= t.len(),
                word_length(t@) == n + word_length(t@.skip(n as int)),
            decreases t.len() - n,
        {
            assert(t@.skip(n as int).drop_first() =~= t@.skip(n + 1));
            n += 1;
        }
        let word = string_of(slice_subrange(t, 0, n));
        assert(word@ =~= t@.take(n as int));
        let ghost before = out@;
        out.push(word);
        let next: usize = s.len() - (t.len() - n);
        proof {
            lemma_texts_push(before, word);
            assert(t@.skip(n as int) =~= s@.skip(next as int));
            assert(texts(out@) + words_of(s@.skip(next as int)) =~= texts(before) + (seq![
                t@.take(n as int),
            ] + words_of(t@.skip(n as int))));
        }
        start = next;
    }
}

// ---------------------------------------------------------------------------
// Paths
// ---------------------------------------------------------------------------

/// The last part of a path that names something: empty parts and single dots do not.
pub open spec fn last_named(parts: Seq<Seq<char>>) -> Option<Seq<char>>
    decreases parts.len(),
{
    if parts.len() == 0 {
        None
    } else if parts.last().len() == 0 || parts.last() == seq!['.'] {
        last_named(parts.drop_last())
    } else {
        Some(parts.last())
    }
}

/// The position of the last `c` in `s`, or -1.
pub open spec fn last_position(s: Seq<char>, c: char) -> int
    decreases s.len(),
{
    if s.len() == 0 {
        -1
    } else if s.last() == c {
        s.len() - 1
    } else {
        last_position(s.drop_last(), c)
    }
}

/// The extension of a file name: what stands behind its last dot, where anything stands
/// in front of it.
pub open spec fn extension_of_name(name: Seq<char>) -> Option<Seq<char>> {
    if name == seq!['.', '.'] || last_position(name, '.') <= 0 {
        None
    } else {
        Some(name.skip(last_position(name, '.') + 1))
    }
}

/// The extension of the file that a path with forward slashes names.
pub open spec fn extension_of(path: Seq<char>) -> Option<Seq<char>> {
    match last_named(split_on(path, '/')) {
        Some(name) => extension_of_name(name),
        None => None,
    }
}

/// The position of the last `c`, plus one; 0 where there is none.
pub fn find_last(s: &[char], c: char) -> (r: usize)
    ensures
        r == last_position(s@, c) + 1,
        r <= s@.len(),
{
    let mut n: usize = s.len();
    assert(s@.take(n as int) =~= s@);
    while n > 0 && s[n - 1] != c
        invariant
            n <= s.len(),
            last_position(s@.take(n as int), c) == last_position(s@, c),
        decreases n,
    {
        assert(s@.take(n as int).drop_last() =~= s@.take(n - 1));
        n -= 1;
    }
    n
}

/// The extension of the file that a path with forward slashes names.
pub fn extension(path: &str) -> (r: Option<String>)
    ensures
        match r {
            Some(e) => extension_of(path@) == Some(e@),
            None => extension_of(path@) is None,
        },
{
    let v = chars_of(path);
    let parts = split(v.as_slice(), '/');
    let mut n: usize = parts.len();
    let ghost all = texts(parts@);
    assert(all.take(n as int) =~= all);
    while n > 0
        invariant
            n <= parts.len(),
            all == texts(parts@),
            all == split_on(path@, '/'),
            last_named(all.take(n as int)) == last_named(all),
        decreases n,
    {
        let name = chars_of(parts[n - 1].as_str());
        proof {
            assert(all.take(n as int).last() == name@);
            assert(all.take(n as int).drop_last() =~= all.take(n - 1));
        }
        if name.len() == 0 || (name.len() == 1 && name[0] == '.') {
            proof {
                if name@.len() == 1 {
                    assert(name@ =~= seq!['.']);
                }
            }
            n -= 1;
            continue;
        }
        proof {
            if name@ == seq!['.'] {
                assert(name@.len() == 1 && name@[0] == '.');
            }
        }
        if name.len() == 2 && name[0] == '.' && name[1] == '.' {
            assert(name@ =~= seq!['.', '.']);
            return None;
        }
        proof {
            if name@ == seq!['.', '.'] {
                assert(name@.len() == 2 && name@[0] == '.' && name@[1] == '.');
            }
        }
        let dot: usize = find_last(name.as_slice(), '.');
        if dot <= 1 {
            return None;
        }
        let tail = slice_subrange(name.as_slice(), dot, name.len());
        assert(tail@ =~= name@.skip(dot as int));
        return Some(string_of(tail));
    }
    None
}

/// Each text that is found somewhere does stand there, character by character, and what
/// begins or ends with a text has it at that end.
pub proof fn law_occurrence(s: Seq<char>, needle: Seq<char>)
    ensures
        contains_text(s, needle) <==> exists|a: Seq<char>, b: Seq<char>| s == #[trigger] ((a + needle) + b),
        begins_with(s, needle) <==> needle.is_prefix_of(s),
        finishes_with(s, needle) <==> needle.is_suffix_of(s),
{
    if contains_text(s, needle) {
        let i = choose|i: int| occurs_at(s, needle, i);
        let a = s.take(i);
        let b = s.skip(i + needle.len());
        assert(s =~= (a + needle) + b) by {
            assert forall|j: int| i <= j < i + needle.len() implies s[j] == needle[j - i] by {
                assert(s.subrange(i, i + needle.len())[j - i] == s[j]);
            }
        }
    }
    if exists|a: Seq<char>, b: Seq<char>| s == #[trigger] ((a + needle) + b) {
        let (a, b) = choose|a: Seq<char>, b: Seq<char>| s == #[trigger] ((a + needle) + b);
        let i = a.len() as int;
        assert(s.subrange(i, i + needle.len()) =~= needle);
        assert(occurs_at(s, needle, i));
    }
    if begins_with(s, needle) {
        assert(needle =~= s.subrange(0, needle.len() as int));
    } else if needle.is_prefix_of(s) {
        assert(s.subrange(0, 0int + needle.len()) =~= needle);
    }
    if finishes_with(s, needle) {
        assert(needle =~= s.subrange(s.len() - needle.len(), s.len() as int));
    } else if needle.is_suffix_of(s) {
        assert(s.subrange(s.len() - needle.len(), s.len() - needle.len() + needle.len())
            =~= needle);
    }
}

proof fn lemma_joined_front(first: Seq<char>, rest: Seq<Seq<char>>, sep: Seq<char>)
    requires
        rest.len() > 0,
    ensures
        joined(seq![first] + rest, sep) == first + sep + joined(rest, sep),
    decreases rest.len(),
{
    let all = seq![first] + rest;
    assert(all.drop_last() =~= seq![first] + rest.drop_last());
    assert(all.last() == rest.last());
    if rest.len() == 1 {
        assert(all.drop_last() =~= seq![first]);
        assert(joined(all.drop_last(), sep) == first);
        assert(joined(rest, sep) == rest[0]);
    } else {
        lemma_joined_front(first, rest.drop_last(), sep);
        let front = joined(rest.drop_last(), sep);
        assert(joined(rest, sep) == front + sep + rest.last());
        assert(joined(all, sep) == (first + sep + front) + sep + rest.last());
        assert((first + sep + front) + sep + rest.last() =~= first + sep + (front + sep
            + rest.last()));
    }
}

/// The parts of a text hold no separator, and put together with the separator between each
/// two they are the text again.
pub proof fn law_split_joined(s: Seq<char>, c: char)
    ensures
        split_on(s, c).len() > 0,
        joined(split_on(s, c), seq![c]) == s,
        forall|k: int|
            0 <= k < split_on(s, c).len() ==> !(#[trigger] split_on(s, c)[k]).contains(c),
    decreases s.len(),
{
    lemma_position_of(s, c);
    let p = position_of(s, c);
    let parts = split_on(s, c);
    if p < s.len() {
        let rest = s.skip(p + 1);
        law_split_joined(rest, c);
        lemma_joined_front(s.take(p), split_on(rest, c), seq![c]);
        assert(s.take(p) + seq![c] + rest =~= s);
        assert forall|k: int| 0 <= k < parts.len() implies !(#[trigger] parts[k]).contains(c) by {
            if k > 0 {
                assert(parts[k] == split_on(rest, c)[k - 1]);
            } else {
                assert(parts[0] == s.take(p));
            }
        }
    } else {
        assert(parts =~= seq![s]);
        assert(!s.contains(c));
    }
}

/// Line `k` of a text stands behind as many line feeds, holds none, and goes up to the
/// next line feed, the carriage return in front of it, or the end of the text.
pub proof fn law_line(s: Seq<char>, k: int)
    requires
        0 <= k < lines_of(s).len(),
    ensures
        exists|a: int, b: int|
            {
                &&& 0 <= a <= b <= s.len()
                &&& lines_of(s)[k] == #[trigger] s.subrange(a, b)
                &&& count_of(s.take(a), '\n') == k
                &&& a == 0 || s[a - 1] == '\n'
                &&& forall|i: int| a <= i < b ==> s[i] != '\n'
                &&& b == s.len() || s[b] == '\n' || (s[b] == '\r' && b + 1 < s.len() && s[b + 1]
                    == '\n')
                &&& b < s.len() && s[b] == '\n' && a < b ==> s[b - 1] != '\r'
            },
    decreases s.len(),
{
    lemma_position_of(s, '\n');
    let p = position_of(s, '\n');
    assert(s.take(0) =~= Seq::<char>::empty());
    if p >= s.len() {
        assert(s.subrange(0, s.len() as int) =~= s);
        assert(lines_of(s) =~= seq![s]);
    } else if k == 0 {
        let line = s.take(p);
        if line.len() > 0 && line.last() == '\r' {
            assert(line.drop_last() =~= s.subrange(0, p - 1));
        } else {
            assert(line =~= s.subrange(0, p));
        }
    } else {
        let rest = s.skip(p + 1);
        law_line(rest, k - 1);
        let (a, b) = choose|a: int, b: int|
            {
                &&& 0 <= a <= b <= rest.len()
                &&& lines_of(rest)[k - 1] == #[trigger] rest.subrange(a, b)
                &&& count_of(rest.take(a), '\n') == k - 1
                &&& a == 0 || rest[a - 1] == '\n'
                &&& forall|i: int| a <= i < b ==> rest[i] != '\n'
                &&& b == rest.len() || rest[b] == '\n' || (rest[b] == '\r' && b + 1 < rest.len()
                    && rest[b + 1] == '\n')
                &&& b < rest.len() && rest[b] == '\n' && a < b ==> rest[b - 1] != '\r'
            };
        let x = p + 1 + a;
        let y = p + 1 + b;
        assert(rest.subrange(a, b) =~= s.subrange(x, y));
        assert forall|i: int| x <= i < y implies s[i] != '\n' by {
            assert(rest[i - p - 1] == s[i]);
        }
        lemma_count_behind(s, p, a);
        if a > 0 {
            assert(rest[a - 1] == s[x - 1]);
        }
        if b > 0 {
            assert(rest[b - 1] == s[y - 1]);
        }
    }
}

proof fn lemma_count_behind(s: Seq<char>, p: int, a: int)
    requires
        0 <= p < s.len(),
        s[p] == '\n',
        forall|i: int| 0 <= i < p ==> s[i] != '\n',
        0 <= a <= s.len() - p - 1,
    ensures
        count_of(s.take(p + 1 + a), '\n') == 1 + count_of(s.skip(p + 1).take(a), '\n'),
    decreases a,
{
    let rest = s.skip(p + 1);
    let front = s.take(p + 1 + a);
    if a > 0 {
        lemma_count_behind(s, p, a - 1);
        assert(front.drop_last() =~= s.take(p + 1 + (a - 1)));
        assert(rest.take(a).drop_last() =~= rest.take(a - 1));
    } else {
        assert(front.drop_last() =~= s.take(p));
        lemma_no_count(s.take(p));
        assert(rest.take(0) =~= Seq::<char>::empty());
    }
}

proof fn lemma_no_count(s: Seq<char>)
    requires
        forall|i: int| 0 <= i < s.len() ==> s[i] != '\n',
    ensures
        count_of(s, '\n') == 0,
    decreases s.len(),
{
    if s.len() > 0 {
        lemma_no_count(s.drop_last());
    }
}

/// A text has one line for each line feed, and one more where something stands behind the
/// last of them.
pub proof fn law_line_count(s: Seq<char>)
    ensures
        lines_of(s).len() == count_of(s, '\n') + if s.len() > 0 && s.last() != '\n' {
            1nat
        } else {
            0nat
        },
    decreases s.len(),
{
    lemma_position_of(s, '\n');
    let p = position_of(s, '\n');
    if s.len() == 0 {
    } else if p >= s.len() {
        lemma_no_count(s);
    } else {
        let rest = s.skip(p + 1);
        law_line_count(rest);
        lemma_count_behind(s, p, rest.len() as int);
        assert(s.take(p + 1 + rest.len()) =~= s);
        assert(rest.take(rest.len() as int) =~= rest);
        if rest.len() > 0 {
            assert(rest.last() == s.last());
        }
    }
}

/// Leaving out the empty texts keeps the others, with their order.
pub proof fn law_filled(front: Seq<Seq<char>>, text: Seq<char>, back: Seq<Seq<char>>)
    ensures
        filled(front + seq![text] + back) == filled(front) + (if text.len() > 0 {
            seq![text]
        } else {
            Seq::empty()
        }) + filled(back),
        filled(Seq::empty()) == Seq::<Seq<char>>::empty(),
    decreases back.len(),
{
    let all = front + seq![text] + back;
    let kept = if text.len() > 0 {
        seq![text]
    } else {
        Seq::empty()
    };
    if back.len() == 0 {
        assert(all.drop_last() =~= front);
        assert(all.last() == text);
        assert(filled(all) =~= filled(front) + kept + filled(back));
    } else {
        law_filled(front, text, back.drop_last());
        assert(all.drop_last() =~= front + seq![text] + back.drop_last());
        assert(all.last() == back.last());
        assert(filled(all) =~= filled(front) + kept + filled(back));
    }
}

/// Replacing a character leaves none of it, puts the other one where it was, and touches
/// nothing else.
pub proof fn law_replaced(s: Seq<char>, a: char, b: char, i: int)
    requires
        0 <= i < s.len(),
    ensures
        replaced_char(s, a, b).len() == s.len(),
        s[i] == a ==> replaced_char(s, a, b)[i] == b,
        s[i] != a ==> replaced_char(s, a, b)[i] == s[i],
        a != b ==> !replaced_char(s, a, b).contains(a),
{
}

proof fn lemma_last_position(s: Seq<char>, c: char)
    ensures
        -1 <= last_position(s, c) < s.len(),
        last_position(s, c) >= 0 ==> s[last_position(s, c)] == c,
        forall|i: int| last_position(s, c) < i < s.len() ==> s[i] != c,
    decreases s.len(),
{
    if s.len() > 0 && s.last() != c {
        lemma_last_position(s.drop_last(), c);
        assert forall|i: int| last_position(s, c) < i < s.len() implies s[i] != c by {
            if i < s.len() - 1 {
                assert(s.drop_last()[i] == s[i]);
            }
        }
    }
}

/// A name with an extension is something, a dot, and the extension, in which there is no
/// dot. A name other than two dots has none only where it has no dot behind its start.
pub proof fn law_extension(name: Seq<char>)
    ensures
        extension_of_name(name) matches Some(e) ==> !e.contains('.'),
        extension_of_name(name) matches Some(e) ==> exists|stem: Seq<char>|
            stem.len() > 0 && name == #[trigger] (stem.push('.') + e),
        extension_of_name(name) is None ==> name == seq!['.', '.'] || forall|i: int|
            0 < i < name.len() ==> #[trigger] name[i] != '.',
{
    lemma_last_position(name, '.');
    let p = last_position(name, '.');
    if extension_of_name(name) is Some {
        let e = name.skip(p + 1);
        let stem = name.take(p);
        assert(name =~= stem.push('.') + e);
        assert(extension_of_name(name) == Some(e));
        assert(stem.len() > 0 && name == (stem.push('.') + e));
        assert forall|i: int| 0 <= i < e.len() implies e[i] != '.' by {
            assert(e[i] == name[p + 1 + i]);
        }
    }
}

/// Word after word, the words of a text are all of its characters but the white space.
pub proof fn law_words(s: Seq<char>)
    ensures
        forall|k: int|
            0 <= k < words_of(s).len() ==> (#[trigger] words_of(s)[k]).len() > 0 && forall|i: int|
                0 <= i < words_of(s)[k].len() ==> !is_white_space(words_of(s)[k][i]),
        joined(words_of(s), Seq::empty()) == s.filter(|c: char| !is_white_space(c)),
        s.len() > 0 && (forall|i: int| 0 <= i < s.len() ==> !is_white_space(#[trigger] s[i]))
            ==> words_of(s) == seq![s],
    decreases s.len(),
{
    let visible = |c: char| !is_white_space(c);
    lemma_trimmed_start(s);
    let t = trimmed_start(s);
    let lead = s.take(s.len() - t.len());
    assert(s =~= lead + t);
    Seq::filter_distributes_over_add(lead, t, visible);
    lemma_filter_none(lead, visible);
    assert(lead.filter(visible) + t.filter(visible) =~= t.filter(visible));
    if t.len() == 0 {
        lemma_filter_none(t, visible);
        assert(words_of(s) =~= Seq::empty());
    } else {
        lemma_word_length(t);
        let n = word_length(t);
        let rest = t.skip(n);
        let word = t.take(n);
        law_words(rest);
        assert(t =~= word + rest);
        Seq::filter_distributes_over_add(word, rest, visible);
        lemma_filter_all(word, visible);
        let all = words_of(s);
        assert(all == seq![word] + words_of(rest));
        if words_of(rest).len() > 0 {
            lemma_joined_front(word, words_of(rest), Seq::empty());
            assert(word + Seq::<char>::empty() + joined(words_of(rest), Seq::empty()) =~= word
                + joined(words_of(rest), Seq::empty()));
        } else {
            assert(all =~= seq![word]);
            assert(joined(words_of(rest), Seq::<char>::empty()) =~= Seq::<char>::empty());
            assert(word + Seq::<char>::empty() =~= word);
        }
        assert forall|k: int| 0 <= k < all.len() implies (#[trigger] all[k]).len() > 0 && forall|
            i: int,
        |
            0 <= i < all[k].len() ==> !is_white_space(all[k][i]) by {
            if k > 0 {
                assert(all[k] == words_of(rest)[k - 1]);
            }
        }
        if forall|i: int| 0 <= i < s.len() ==> !is_white_space(#[trigger] s[i]) {
            assert(t == s);
            assert(rest.len() == 0);
            assert(trimmed_start(rest).len() == 0);
            assert(word =~= s);
            assert(all =~= seq![s]);
        }
    }
}

proof fn lemma_filter_none(s: Seq<char>, p: spec_fn(char) -> bool)
    requires
        forall|i: int| 0 <= i < s.len() ==> !p(#[trigger] s[i]),
    ensures
        s.filter(p) == Seq::<char>::empty(),
    decreases s.len(),
{
    reveal(Seq::filter);
    if s.len() > 0 {
        lemma_filter_none(s.drop_last(), p);
    }
}

proof fn lemma_filter_all(s: Seq<char>, p: spec_fn(char) -> bool)
    requires
        forall|i: int| 0 <= i < s.len() ==> p(#[trigger] s[i]),
    ensures
        s.filter(p) == s,
    decreases s.len(),
{
    reveal(Seq::filter);
    if s.len() > 0 {
        lemma_filter_all(s.drop_last(), p);
        assert(s.drop_last().push(s.last()) =~= s);
    }
}

/// A part in front of a separator is the first part, where it holds none itself.
pub proof fn lemma_split_first(x: Seq<char>, c: char, rest: Seq<char>)
    requires
        !x.contains(c),
    ensures
        split_on(x + seq![c] + rest, c) == seq![x] + split_on(rest, c),
{
    let s = x + seq![c] + rest;
    assert forall|i: int| 0 <= i < x.len() implies s[i] != c by {
        assert(s[i] == x[i]);
    }
    lemma_position_unique(s, c, x.len() as int);
    assert(s.take(x.len() as int) =~= x);
    assert(s.skip(x.len() + 1int) =~= rest);
}

/// Parts that hold no separator, put together with it between each two, are taken apart
/// again into the same parts.
pub proof fn law_joined_split(parts: Seq<Seq<char>>, c: char)
    requires
        parts.len() > 0,
        forall|k: int| 0 <= k < parts.len() ==> !(#[trigger] parts[k]).contains(c),
    ensures
        split_on(joined(parts, seq![c]), c) == parts,
    decreases parts.len(),
{
    let first = parts[0];
    let rest = parts.drop_first();
    assert(!first.contains(c));
    if rest.len() == 0 {
        lemma_position_of(first, c);
        let p = position_of(first, c);
        if p < first.len() {
            assert(first.contains(first[p]));
        }
        assert(split_on(first, c) =~= parts);
    } else {
        assert forall|k: int| 0 <= k < rest.len() implies !(#[trigger] rest[k]).contains(c) by {
            assert(rest[k] == parts[k + 1]);
        }
        law_joined_split(rest, c);
        assert(parts =~= seq![first] + rest);
        lemma_joined_front(first, rest, seq![c]);
        lemma_split_first(first, c, joined(rest, seq![c]));
    }
}

} // verus!
