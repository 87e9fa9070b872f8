//! Scores: single-precision numbers, held by their bits, compared by an integer that
//! orders them as the numbers are ordered, and written in decimal.

use vstd::arithmetic::power2::{lemma_pow2_pos, lemma_pow2_unfold, pow2};
use vstd::prelude::*;
use crate::decimal::{decimal, push_decimal, push_wide_decimal};

verus! {

/// A single-precision number, by the bits of its IEEE 754 form.
#[derive(Debug, Clone, Copy, PartialEq, Eq, Structural)]
pub struct Score {
    pub bits: u32,
}

/// The bits of a number without its sign.
pub open spec fn magnitude(s: Score) -> nat {
    (s.bits % 0x8000_0000) as nat
}

/// The bits stand for no number.
pub open spec fn is_nan(s: Score) -> bool {
    magnitude(s) > 0x7f80_0000
}

/// The integer that orders numbers: the magnitude bits, negated under a minus sign.
/// Both zeros give zero, so two numbers are equal exactly where their keys are.
pub open spec fn score_key(s: Score) -> int {
    if s.bits < 0x8000_0000u32 {
        s.bits as int
    } else {
        0x8000_0000 - s.bits
    }
}

/// `a` is greater than `b`. What is no number is neither greater nor less than anything.
pub open spec fn greater(a: Score, b: Score) -> bool {
    !is_nan(a) && !is_nan(b) && score_key(a) > score_key(b)
}

/// The score is at least the number with that key.
pub open spec fn at_least(s: Score, key: int) -> bool {
    !is_nan(s) && score_key(s) >= key
}

/// The score is less than the number with that key.
pub open spec fn less_than(s: Score, key: int) -> bool {
    !is_nan(s) && score_key(s) < key
}

impl Score {
    /// The integer that orders numbers.
    pub fn key(&self) -> (r: i64)
        ensures
            r == score_key(*self),
    {
        if self.bits < 0x8000_0000u32 {
            self.bits as i64
        } else {
            0x8000_0000i64 - self.bits as i64
        }
    }

    /// Whether the bits stand for no number.
    pub fn is_nan(&self) -> (r: bool)
        ensures
            r == is_nan(*self),
    {
        self.bits % 0x8000_0000 > 0x7f80_0000
    }

    /// Whether this score is greater than `other`.
    pub fn exceeds(&self, other: &Score) -> (r: bool)
        ensures
            r == greater(*self, *other),
    {
        !self.is_nan() && !other.is_nan() && self.key() > other.key()
    }

    /// Whether this score is at least the number with that key.
    pub fn reaches(&self, key: i64) -> (r: bool)
        ensures
            r == at_least(*self, key as int),
    {
        !self.is_nan() && self.key() >= key
    }

    /// Whether this score is less than the number with that key.
    pub fn falls_short(&self, key: i64) -> (r: bool)
        ensures
            r == less_than(*self, key as int),
    {
        !self.is_nan() && self.key() < key
    }
}

/// The least of the scores that occur, the first of equal ones; the first of all where that
/// is no number.
pub open spec fn least_of(s: Seq<Option<Score>>) -> Option<Score>
    decreases s.len(),
{
    if s.len() == 0 {
        None
    } else {
        match (least_of(s.drop_last()), s.last()) {
            (Some(low), Some(v)) => Some(
                if greater(low, v) {
                    v
                } else {
                    low
                },
            ),
            (Some(low), None) => Some(low),
            (None, v) => v,
        }
    }
}

/// The greatest of the scores that occur, the first of equal ones; the first of all where
/// that is no number.
pub open spec fn greatest_of(s: Seq<Option<Score>>) -> Option<Score>
    decreases s.len(),
{
    if s.len() == 0 {
        None
    } else {
        match (greatest_of(s.drop_last()), s.last()) {
            (Some(high), Some(v)) => Some(
                if greater(v, high) {
                    v
                } else {
                    high
                },
            ),
            (Some(high), None) => Some(high),
            (None, v) => v,
        }
    }
}

/// Where a score occurs there is a least one and a greatest one. Both occur, none that
/// occurs is less than the least, and none is greater than the greatest.
pub proof fn law_score_range(s: Seq<Option<Score>>)
    ensures
        least_of(s) is Some <==> exists|i: int| 0 <= i < s.len() && (#[trigger] s[i]) is Some,
        greatest_of(s) is Some <==> least_of(s) is Some,
        least_of(s) matches Some(low) ==> s.contains(Some(low)) && forall|i: int|
            0 <= i < s.len() && (#[trigger] s[i]) is Some ==> !greater(low, s[i]->0),
        greatest_of(s) matches Some(high) ==> s.contains(Some(high)) && forall|i: int|
            0 <= i < s.len() && (#[trigger] s[i]) is Some ==> !greater(s[i]->0, high),
    decreases s.len(),
{
    if s.len() > 0 {
        let front = s.drop_last();
        law_score_range(front);
        assert(s.last() == s[s.len() - 1]);
        assert forall|i: int| 0 <= i < front.len() implies front[i] == #[trigger] s[i] by {}
        if least_of(front) is Some {
            let i = choose|i: int| 0 <= i < front.len() && front[i] == least_of(front);
            assert(s[i] == least_of(front));
            let j = choose|j: int| 0 <= j < front.len() && front[j] == greatest_of(front);
            assert(s[j] == greatest_of(front));
        } else {
            assert forall|i: int| 0 <= i < front.len() implies (#[trigger] s[i]) is None by {
                assert(front[i] is None);
            }
        }
    }
}

/// The least and the greatest score that occur, or `None` where none does.
pub fn score_range(s: &[Option<Score>]) -> (r: Option<(Score, Score)>)
    ensures
        match r {
            Some((low, high)) => least_of(s@) == Some(low) && greatest_of(s@) == Some(high),
            None => least_of(s@) is None && greatest_of(s@) is None,
        },
{
    let mut found: Option<(Score, Score)> = None;
    let mut i: usize = 0;
    assert(s@.take(0) =~= Seq::<Option<Score>>::empty());
    while i < s.len()
        invariant
            i <= s.len(),
            match found {
                Some((low, high)) => least_of(s@.take(i as int)) == Some(low) && greatest_of(
                    s@.take(i as int),
                ) == Some(high),
                None => least_of(s@.take(i as int)) is None && greatest_of(s@.take(i as int))
                    is None,
            },
        decreases s.len() - i,
    {
        assert(s@.take(i + 1).drop_last() =~= s@.take(i as int));
        assert(s@.take(i + 1).last() == s@[i as int]);
        if let Some(v) = s[i] {
            found = match found {
                Some((low, high)) => {
                    let new_low = if low.exceeds(&v) { v } else { low };
                    let new_high = if v.exceeds(&high) { v } else { high };
                    Some((new_low, new_high))
                },
                None => Some((v, v)),
            };
        }
        i += 1;
    }
    assert(s@.take(i as int) =~= s@);
    found
}

/// The exponent that the bits of a number hold.
pub open spec fn exponent(s: Score) -> nat {
    magnitude(s) / 0x80_0000
}

/// The whole number that the bits of a number hold, to be scaled by a power of two.
pub open spec fn significand(s: Score) -> nat {
    if exponent(s) == 0 {
        magnitude(s)
    } else {
        magnitude(s) % 0x80_0000 + 0x80_0000
    }
}

/// The power of two by which the significand of a number under `2^24` is divided.
pub open spec fn scale_down(s: Score) -> nat {
    if exponent(s) == 0 {
        149
    } else {
        (150 - exponent(s)) as nat
    }
}

/// `num / den` rounded to the nearest whole number, a tie to the even one.
pub open spec fn nearest(num: nat, den: nat) -> nat {
    let q = num / den;
    let r = num % den;
    if 2 * r > den || (2 * r == den && q % 2 == 1) {
        q + 1
    } else {
        q
    }
}

/// A number without its sign in parts, `units` of which make one, rounded.
pub open spec fn score_parts(s: Score, units: nat) -> nat {
    if exponent(s) <= 150 {
        nearest(significand(s) * units, pow2(scale_down(s)))
    } else {
        significand(s) * pow2((exponent(s) - 150) as nat) * units
    }
}

/// A number of hundredths with two digits behind the point.
pub open spec fn hundredths(n: nat) -> Seq<char> {
    decimal(n / 100) + "."@ + decimal((n / 10) % 10) + decimal(n % 10)
}

/// A number of ten-thousandths with four digits behind the point.
pub open spec fn ten_thousandths(n: nat) -> Seq<char> {
    decimal(n / 10000) + "."@ + decimal((n / 1000) % 10) + decimal((n / 100) % 10) + decimal(
        (n / 10) % 10,
    ) + decimal(n % 10)
}

/// A number with its sign in front of `digits`, which stand for what is finite of it.
pub open spec fn with_sign(s: Score, digits: Seq<char>) -> Seq<char> {
    if is_nan(s) {
        "NaN"@
    } else {
        (if s.bits >= 0x8000_0000u32 {
            "-"@
        } else {
            Seq::empty()
        }) + (if magnitude(s) == 0x7f80_0000 {
            "inf"@
        } else {
            digits
        })
    }
}

/// A score with two digits behind the point.
pub open spec fn score_text(s: Score) -> Seq<char> {
    with_sign(s, hundredths(score_parts(s, 100)))
}

/// A score with four digits behind the point.
pub open spec fn fine_score_text(s: Score) -> Seq<char> {
    with_sign(s, ten_thousandths(score_parts(s, 10000)))
}

proof fn lemma_pow2_grows(a: nat, b: nat)
    requires
        a <= b,
    ensures
        pow2(a) <= pow2(b),
    decreases b,
{
    if a < b {
        lemma_pow2_grows(a, (b - 1) as nat);
        lemma_pow2_unfold(b);
        lemma_pow2_pos((b - 1) as nat);
    }
}

proof fn lemma_pow2_62()
    ensures
        pow2(62) == 0x4000_0000_0000_0000,
        pow2(0) == 1,
{
    vstd::arithmetic::power2::lemma2_to64();
    vstd::arithmetic::power2::lemma2_to64_rest();
}

/// A number under `2^24`, without its sign, in parts, at most ten thousand of which make
/// one, rounded.
pub fn round_score(s: Score, units: u64) -> (r: u64)
    requires
        exponent(s) <= 150,
        units <= 10_000,
    ensures
        r == score_parts(s, units as nat),
        r <= 0x4000_0000_0000_0000,
{
    let bits: u32 = s.bits % 0x8000_0000;
    let e: u32 = bits / 0x80_0000;
    let m: u64 = if e == 0 {
        bits as u64
    } else {
        (bits % 0x80_0000 + 0x80_0000) as u64
    };
    let k: u32 = if e == 0 {
        149
    } else {
        150 - e
    };
    assert(m <= 0x100_0000);
    assert(m * units <= 0x100_0000 * 10_000) by (nonlinear_arith)
        requires
            m <= 0x100_0000,
            units <= 10_000,
    ;
    let num: u64 = m * units;
    proof {
        lemma_pow2_62();
        lemma_pow2_pos(k as nat);
    }
    if k > 62 {
        proof {
            lemma_pow2_grows(62, k as nat);
            let den = pow2(k as nat);
            let n = num as nat;
            assert(n / den == 0 && n % den == n) by (nonlinear_arith)
                requires
                    0 <= n < den,
            ;
        }
        return 0;
    }
    let mut den: u64 = 1;
    let mut i: u32 = 0;
    while i < k
        invariant
            i <= k <= 62,
            den == pow2(i as nat),
            den <= 0x4000_0000_0000_0000,
        decreases k - i,
    {
        proof {
            lemma_pow2_unfold((i + 1) as nat);
            lemma_pow2_grows((i + 1) as nat, 62);
            lemma_pow2_62();
        }
        den = den * 2;
        i += 1;
    }
    let q: u64 = num / den;
    let rest: u64 = num % den;
    assert(q <= num) by (nonlinear_arith)
        requires
            q == num / den,
            den >= 1,
    ;
    if 2 * rest > den || (2 * rest == den && q % 2 == 1) {
        q + 1
    } else {
        q
    }
}

proof fn lemma_pow2_128()
    ensures
        pow2(128) == u128::MAX + 1,
        pow2(24) == 0x100_0000,
        pow2(0) == 1,
{
    vstd::arithmetic::power2::lemma2_to64();
    vstd::arithmetic::power2::lemma_pow2_adds(64, 64);
}

/// A finite number from `2^24` on, without its sign, which is a whole one.
fn whole_score(s: Score) -> (r: u128)
    requires
        exponent(s) > 150,
        magnitude(s) < 0x7f80_0000,
    ensures
        r == significand(s) * pow2((exponent(s) - 150) as nat),
{
    let bits: u32 = s.bits % 0x8000_0000;
    let n: u32 = bits / 0x80_0000 - 150;
    let mut r: u128 = (bits % 0x80_0000 + 0x80_0000) as u128;
    let mut i: u32 = 0;
    proof {
        lemma_pow2_128();
    }
    while i < n
        invariant
            i <= n <= 104,
            n == exponent(s) - 150,
            r == significand(s) * pow2(i as nat),
            r < pow2((24 + i) as nat),
        decreases n - i,
    {
        proof {
            lemma_pow2_128();
            lemma_pow2_unfold((i + 1) as nat);
            lemma_pow2_unfold((25 + i) as nat);
            lemma_pow2_grows((25 + i) as nat, 128);
            let m = significand(s);
            let p = pow2(i as nat);
            assert(m * (2 * p) == 2 * (m * p)) by (nonlinear_arith);
        }
        r = r * 2;
        i += 1;
    }
    r
}

proof fn lemma_whole_parts(whole: nat)
    ensures
        (whole * 100) / 100 == whole,
        ((whole * 100) / 10) % 10 == 0,
        (whole * 100) % 10 == 0,
        (whole * 10000) / 10000 == whole,
        ((whole * 10000) / 1000) % 10 == 0,
        ((whole * 10000) / 100) % 10 == 0,
        ((whole * 10000) / 10) % 10 == 0,
        (whole * 10000) % 10 == 0,
{
}

proof fn lemma_zero_digit()
    ensures
        decimal(0) == seq!['0'],
{
}

/// Appends a number of hundredths with two digits behind the point.
pub fn push_hundredths(out: &mut String, n: u64)
    ensures
        final(out)@ == old(out)@ + hundredths(n as nat),
{
    let ghost before = out@;
    push_decimal(out, n / 100);
    out.append(".");
    push_decimal(out, (n / 10) % 10);
    push_decimal(out, n % 10);
    assert(out@ =~= before + hundredths(n as nat));
}

/// Appends a number of ten-thousandths with four digits behind the point.
fn push_ten_thousandths(out: &mut String, n: u64)
    ensures
        final(out)@ == old(out)@ + ten_thousandths(n as nat),
{
    let ghost before = out@;
    push_decimal(out, n / 10_000);
    out.append(".");
    push_decimal(out, (n / 1000) % 10);
    push_decimal(out, (n / 100) % 10);
    push_decimal(out, (n / 10) % 10);
    push_decimal(out, n % 10);
    assert(out@ =~= before + ten_thousandths(n as nat));
}

/// Appends what stands in front of the digits of a number; where there are no digits, it
/// is all that is shown, and the answer is no.
fn push_sign(out: &mut String, s: Score) -> (r: bool)
    ensures
        r == (magnitude(s) < 0x7f80_0000),
        forall|digits: Seq<char>|
            #![trigger with_sign(s, digits)]
            if r {
                final(out)@ + digits == old(out)@ + with_sign(s, digits)
            } else {
                final(out)@ == old(out)@ + with_sign(s, digits)
            },
{
    let ghost before = out@;
    let bits: u32 = s.bits % 0x8000_0000;
    if bits > 0x7f80_0000 {
        out.append("NaN");
        return false;
    }
    if s.bits >= 0x8000_0000 {
        out.append("-");
        assert(out@ =~= before + "-"@);
    } else {
        assert(out@ =~= before + Seq::<char>::empty());
    }
    let ghost sign = if s.bits >= 0x8000_0000u32 {
        "-"@
    } else {
        Seq::<char>::empty()
    };
    if bits == 0x7f80_0000 {
        out.append("inf");
        assert(out@ =~= before + (sign + "inf"@));
        return false;
    }
    assert forall|digits: Seq<char>| #![trigger with_sign(s, digits)] out@ + digits == before
        + with_sign(s, digits) by {
        assert((before + sign) + digits =~= before + (sign + digits));
    }
    true
}

/// Appends a score with two digits behind the point.
pub fn push_score(out: &mut String, s: Score)
    ensures
        final(out)@ == old(out)@ + score_text(s),
{
    let ghost before = out@;
    let ghost digits = hundredths(score_parts(s, 100));
    assert(score_text(s) == with_sign(s, digits));
    if push_sign(out, s) {
        let e: u32 = (s.bits % 0x8000_0000) / 0x80_0000;
        if e <= 150 {
            let parts: u64 = round_score(s, 100);
            push_hundredths(out, parts);
        } else {
            let ghost signed = out@;
            let whole: u128 = whole_score(s);
            push_wide_decimal(out, whole);
            out.append(".00");
            proof {
                lemma_whole_parts(whole as nat);
                lemma_zero_digit();
                reveal_strlit(".00");
                reveal_strlit(".");
            }
            assert(out@ =~= signed + digits);
        }
    }
}

/// Appends a score with four digits behind the point.
pub fn push_fine_score(out: &mut String, s: Score)
    ensures
        final(out)@ == old(out)@ + fine_score_text(s),
{
    let ghost before = out@;
    let ghost digits = ten_thousandths(score_parts(s, 10000));
    assert(fine_score_text(s) == with_sign(s, digits));
    if push_sign(out, s) {
        let e: u32 = (s.bits % 0x8000_0000) / 0x80_0000;
        if e <= 150 {
            let parts: u64 = round_score(s, 10_000);
            push_ten_thousandths(out, parts);
        } else {
            let ghost signed = out@;
            let whole: u128 = whole_score(s);
            push_wide_decimal(out, whole);
            out.append(".0000");
            proof {
                lemma_whole_parts(whole as nat);
                lemma_zero_digit();
                reveal_strlit(".0000");
                reveal_strlit(".");
            }
            assert(out@ =~= signed + digits);
        }
    }
}

/// Scores are ordered as the numbers are that their bits stand for: among positive numbers
/// the greater bits are greater, among negative ones the smaller bits are, a positive number
/// is greater than a negative one unless both are zero, and what is no number is not
/// greater than anything.
pub proof fn law_score_order(a: Score, b: Score)
    ensures
        a.bits <= 0x7f80_0000 && b.bits <= 0x7f80_0000 ==> (greater(a, b) <==> a.bits > b.bits),
        0x8000_0000 <= a.bits <= 0xff80_0000 && 0x8000_0000 <= b.bits <= 0xff80_0000 ==> (greater(
            a,
            b,
        ) <==> a.bits < b.bits),
        a.bits <= 0x7f80_0000 && 0x8000_0000 <= b.bits <= 0xff80_0000 ==> (greater(a, b) <==> a.bits
            > 0 || b.bits > 0x8000_0000),
        0x8000_0000 <= a.bits <= 0xff80_0000 && b.bits <= 0x7f80_0000 ==> !greater(a, b),
        0x7f80_0000 < a.bits < 0x8000_0000 || a.bits > 0xff80_0000 ==> !greater(a, b) && !greater(
            b,
            a,
        ) && is_nan(a),
{
}

/// A score reaches a bound exactly where it is a number that does not fall short of it.
pub proof fn law_score_bound(s: Score, key: int)
    ensures
        !is_nan(s) ==> (at_least(s, key) <==> !less_than(s, key)),
        is_nan(s) ==> !at_least(s, key) && !less_than(s, key),
        s.bits <= 0x7f80_0000 ==> (at_least(s, key) <==> s.bits >= key),
{
}

/// The nearest whole number is never more than a half away, and of two that are as near it is
/// the even one.
pub proof fn law_nearest(num: nat, den: nat)
    requires
        den > 0,
    ensures
        2 * num <= 2 * (nearest(num, den) * den) + den,
        2 * (nearest(num, den) * den) <= 2 * num + den,
        2 * num == 2 * (nearest(num, den) * den) + den || 2 * (nearest(num, den) * den) == 2 * num
            + den ==> nearest(num, den) % 2 == 0,
{
    let q = num / den;
    let r = num % den;
    vstd::arithmetic::div_mod::lemma_fundamental_div_mod(num as int, den as int);
    assert(q * den == den * q) by (nonlinear_arith);
    assert((q + 1) * den == den * q + den) by (nonlinear_arith);
}

/// The bits of a number without its sign are its exponent and then its fraction. The leading
/// bit of the significand is held by an exponent above zero alone.
pub proof fn law_score_bits(s: Score)
    ensures
        exponent(s) == 0 ==> significand(s) == magnitude(s) && significand(s) < 0x80_0000,
        exponent(s) > 0 ==> 0x80_0000 <= significand(s) < 0x100_0000 && magnitude(s) == (exponent(s)
            - 1) * 0x80_0000 + significand(s),
{
}

/// A number is printed in the parts nearest to it: its significand, scaled by its exponent, is
/// off by at most half a part.
pub proof fn law_score_parts(s: Score, units: nat)
    requires
        exponent(s) <= 150,
    ensures
        ({
            let scale = pow2(
                if exponent(s) == 0 {
                    149
                } else {
                    (150 - exponent(s)) as nat
                },
            );
            &&& 2 * (significand(s) * units) <= 2 * (score_parts(s, units) * scale) + scale
            &&& 2 * (score_parts(s, units) * scale) <= 2 * (significand(s) * units) + scale
        }),
{
    vstd::arithmetic::power2::lemma_pow2_pos(scale_down(s));
    law_nearest(significand(s) * units, pow2(scale_down(s)));
}

/// Hundredths are printed as a whole number, a point, and two digits; ten-thousandths with
/// four.
pub proof fn law_digits_behind_point(whole: nat, a: nat, b: nat, c: nat, d: nat)
    requires
        a < 10,
        b < 10,
        c < 10,
        d < 10,
    ensures
        hundredths(100 * whole + 10 * a + b) == decimal(whole) + "."@ + decimal(a) + decimal(b),
        ten_thousandths(10000 * whole + 1000 * a + 100 * b + 10 * c + d) == decimal(whole) + "."@
            + decimal(a) + decimal(b) + decimal(c) + decimal(d),
{
    let n = 100 * whole + 10 * a + b;
    assert(n / 100 == whole && (n / 10) % 10 == a && n % 10 == b);
    let m = 10000 * whole + 1000 * a + 100 * b + 10 * c + d;
    assert(m / 10000 == whole && (m / 1000) % 10 == a && (m / 100) % 10 == b);
    assert((m / 10) % 10 == c && m % 10 == d);
}

/// A score is printed with a minus sign exactly where its sign bit is set; what is no number
/// has no sign, and what is infinite no digits.
pub proof fn law_score_text(s: Score)
    ensures
        is_nan(s) ==> score_text(s) == "NaN"@ && fine_score_text(s) == "NaN"@,
        !is_nan(s) && s.bits < 0x8000_0000u32 && magnitude(s) != 0x7f80_0000 ==> score_text(s)
            == hundredths(score_parts(s, 100)) && fine_score_text(s) == ten_thousandths(
            score_parts(s, 10000),
        ),
        !is_nan(s) && s.bits >= 0x8000_0000u32 && magnitude(s) != 0x7f80_0000 ==> score_text(s)
            == "-"@ + hundredths(score_parts(s, 100)) && fine_score_text(s) == "-"@
            + ten_thousandths(score_parts(s, 10000)),
        s.bits == 0x7f80_0000u32 ==> score_text(s) == "inf"@ && fine_score_text(s) == "inf"@,
{
    reveal_strlit("inf");
    let none = Seq::<char>::empty();
    assert(none + hundredths(score_parts(s, 100)) =~= hundredths(score_parts(s, 100)));
    assert(none + ten_thousandths(score_parts(s, 10000)) =~= ten_thousandths(
        score_parts(s, 10000),
    ));
    assert(none + "inf"@ =~= "inf"@);
}

} // verus!
