//! Numbers written in decimal.

use vstd::prelude::*;
use vstd::slice::slice_subrange;
use crate::text::chars_of;

verus! {

/// The character of a decimal digit.
pub open spec fn digit_char(d: nat) -> char {
    (48 + d) as char
}

/// `n` in decimal, without leading zeros.
pub open spec fn decimal(n: nat) -> Seq<char>
    decreases n,
{
    if n < 10 {
        seq![digit_char(n)]
    } else {
        decimal(n / 10).push(digit_char(n % 10))
    }
}

/// `n` in decimal, with a minus sign where it is negative.
pub open spec fn signed_decimal(n: int) -> Seq<char> {
    if n < 0 {
        seq!['-'] + decimal((-n) as nat)
    } else {
        decimal(n as nat)
    }
}

/// The number that a run of decimal digits stands for.
pub open spec fn decimal_value(s: Seq<char>) -> nat
    decreases s.len(),
{
    if s.len() == 0 {
        0
    } else {
        (decimal_value(s.drop_last()) * 10 + (s.last() as nat - 48)) as nat
    }
}

/// Reading back a number that was written in decimal gives the number.
pub proof fn lemma_decimal_round_trip(n: nat)
    ensures
        decimal_value(decimal(n)) == n,
        forall|i: int| 0 <= i < decimal(n).len() ==> '0' <= #[trigger] decimal(n)[i] <= '9',
        decimal(n).len() > 0,
    decreases n,
{
    if n < 10 {
        let d = seq![digit_char(n)];
        assert(decimal(n) =~= d);
        assert(d.drop_last() =~= Seq::<char>::empty());
        assert(decimal_value(d.drop_last()) == 0);
        assert(d.last() as nat == 48 + n);
    } else {
        lemma_decimal_round_trip(n / 10);
        let d = decimal(n / 10);
        assert(decimal(n).drop_last() =~= d);
        assert(decimal(n).last() as nat == 48 + n % 10);
        assert forall|i: int| 0 <= i < decimal(n).len() implies '0' <= #[trigger] decimal(n)[i]
            <= '9' by {
            if i < d.len() {
                assert(decimal(n)[i] == d[i]);
            }
        }
    }
}

/// Two numbers with the same decimal form are the same number.
pub proof fn lemma_decimal_injective(a: nat, b: nat)
    requires
        decimal(a) == decimal(b),
    ensures
        a == b,
{
    lemma_decimal_round_trip(a);
    lemma_decimal_round_trip(b);
}

/// Appends `n` in decimal.
pub fn push_decimal(out: &mut String, n: u64)
    ensures
        final(out)@ == old(out)@ + decimal(n as nat),
    decreases n,
{
    if n >= 10 {
        push_decimal(out, n / 10);
    }
    let d: u8 = (n % 10) as u8;
    out.push((48 + d) as char);
    assert(out@ =~= old(out)@ + decimal(n as nat));
}

/// Appends `n`, which may be too large for 64 bits, in decimal.
pub fn push_wide_decimal(out: &mut String, n: u128)
    ensures
        final(out)@ == old(out)@ + decimal(n as nat),
    decreases n,
{
    if n >= 10 {
        push_wide_decimal(out, n / 10);
    }
    let d: u8 = (n % 10) as u8;
    out.push((48 + d) as char);
    assert(out@ =~= old(out)@ + decimal(n as nat));
}

/// Appends `n` in decimal, with a minus sign where it is negative.
pub fn push_signed_decimal(out: &mut String, n: i64)
    ensures
        final(out)@ == old(out)@ + signed_decimal(n as int),
{
    if n < 0 {
        out.push('-');
        let magnitude: u64 = if n == i64::MIN {
            9_223_372_036_854_775_808u64
        } else {
            (-n) as u64
        };
        push_decimal(out, magnitude);
        assert(out@ =~= old(out)@ + signed_decimal(n as int));
    } else {
        push_decimal(out, n as u64);
    }
}

/// `n` in decimal.
pub fn decimal_of(n: u64) -> (r: String)
    ensures
        r@ == decimal(n as nat),
{
    let mut out = String::new();
    push_decimal(&mut out, n);
    assert(out@ =~= decimal(n as nat));
    out
}

/// Every character of `s` is a decimal digit.
pub open spec fn all_digits(s: Seq<char>) -> bool {
    forall|i: int| 0 <= i < s.len() ==> '0' <= #[trigger] s[i] <= '9'
}

/// The number that `s` stands for: `None` where `s` is empty, holds a character
/// that is no digit, or stands for more than `limit`.
pub fn parse_decimal(s: &[char], limit: u64) -> (r: Option<u64>)
    ensures
        match r {
            Some(v) => s@.len() > 0 && all_digits(s@) && v == decimal_value(s@) && v <= limit,
            None => s@.len() == 0 || !all_digits(s@) || decimal_value(s@) > limit,
        },
{
    if s.len() == 0 {
        return None;
    }
    let mut value: u64 = 0;
    let mut over: bool = false;
    let mut i: usize = 0;
    assert(s@.take(0) =~= Seq::<char>::empty());
    while i < s.len()
        invariant
            i <= s.len(),
            all_digits(s@.take(i as int)),
            !over ==> value == decimal_value(s@.take(i as int)) && value <= limit,
            over ==> decimal_value(s@.take(i as int)) > limit,
        decreases s.len() - i,
    {
        let c = s[i];
        if c < '0' || c > '9' {
            assert(!all_digits(s@)) by {
                assert(s@[i as int] == c);
            }
            return None;
        }
        proof {
            assert(s@.take(i + 1).drop_last() =~= s@.take(i as int));
            assert(s@.take(i + 1).last() == c);
            assert forall|j: int| 0 <= j < s@.take(i + 1).len() implies '0' <= #[trigger] s@.take(
                i + 1,
            )[j] <= '9' by {
                if j < i {
                    assert(s@.take(i as int)[j] == s@.take(i + 1)[j]);
                }
            }
        }
        let d: u64 = (c as u8 - 48) as u64;
        if !over {
            if value > limit / 10 || value * 10 > limit - (if d > limit { limit } else { d })
                || d > limit {
                over = true;
                proof {
                    let next = decimal_value(s@.take(i + 1));
                    assert(next == value * 10 + d);
                }
            } else {
                value = value * 10 + d;
            }
        }
        i += 1;
    }
    assert(s@.take(i as int) =~= s@);
    if over {
        None
    } else {
        Some(value)
    }
}

/// The digits of a number that may have a plus sign in front.
pub open spec fn without_plus(s: Seq<char>) -> Seq<char> {
    if s.len() > 0 && s[0] == '+' {
        s.drop_first()
    } else {
        s
    }
}

/// The whole number that a text stands for, at most `limit`.
pub open spec fn unsigned_of(s: Seq<char>, limit: nat) -> Option<nat> {
    let digits = without_plus(s);
    if digits.len() > 0 && all_digits(digits) && decimal_value(digits) <= limit {
        Some(decimal_value(digits))
    } else {
        None
    }
}

/// The whole number that a text stands for, at most `limit`.
pub fn parse_unsigned(s: &str, limit: u64) -> (r: Option<u64>)
    ensures
        match r {
            Some(v) => unsigned_of(s@, limit as nat) == Some(v as nat),
            None => unsigned_of(s@, limit as nat) is None,
        },
{
    let v = chars_of(s);
    if v.len() > 0 && v[0] == '+' {
        let digits = slice_subrange(v.as_slice(), 1, v.len());
        assert(digits@ =~= s@.drop_first());
        parse_decimal(digits, limit)
    } else {
        parse_decimal(v.as_slice(), limit)
    }
}

/// The number that a text in decimal stands for is read back.
pub proof fn law_number_read_back(n: nat, limit: nat)
    requires
        n <= limit,
    ensures
        unsigned_of(decimal(n), limit) == Some(n),
{
    lemma_decimal_round_trip(n);
    assert('0' <= decimal(n)[0] <= '9');
}

/// The whole number that a text with an optional sign stands for, where it fits in 64 bits.
pub open spec fn signed_of(s: Seq<char>) -> Option<int> {
    if s.len() > 0 && s[0] == '-' {
        let digits = s.drop_first();
        if digits.len() > 0 && all_digits(digits) && decimal_value(digits)
            <= 0x8000_0000_0000_0000 {
            Some(-(decimal_value(digits) as int))
        } else {
            None
        }
    } else {
        match unsigned_of(s, 0x7fff_ffff_ffff_ffff) {
            Some(n) => Some(n as int),
            None => None,
        }
    }
}

/// The whole number that a text with an optional sign stands for.
pub fn parse_signed(s: &str) -> (r: Option<i64>)
    ensures
        match r {
            Some(n) => signed_of(s@) == Some(n as int),
            None => signed_of(s@) is None,
        },
{
    let v = chars_of(s);
    if v.len() > 0 && v[0] == '-' {
        let digits = slice_subrange(v.as_slice(), 1, v.len());
        assert(digits@ =~= s@.drop_first());
        match parse_decimal(digits, 0x8000_0000_0000_0000) {
            Some(n) => if n == 0x8000_0000_0000_0000 {
                Some(i64::MIN)
            } else {
                Some(-(n as i64))
            },
            None => None,
        }
    } else {
        match parse_unsigned(s, 0x7fff_ffff_ffff_ffff) {
            Some(n) => Some(n as i64),
            None => None,
        }
    }
}

/// A number with a sign in front, as it is written, is read back as the number it was.
pub proof fn law_signed_read_back(n: int)
    requires
        i64::MIN <= n <= i64::MAX,
    ensures
        signed_of(signed_decimal(n)) == Some(n),
        n < 0 <==> signed_decimal(n)[0] == '-',
{
    if n < 0 {
        lemma_decimal_round_trip((-n) as nat);
        assert(signed_decimal(n).drop_first() =~= decimal((-n) as nat));
    } else {
        lemma_decimal_round_trip(n as nat);
        assert('0' <= decimal(n as nat)[0] <= '9');
        law_number_read_back(n as nat, 0x7fff_ffff_ffff_ffff);
    }
}

/// A digit more multiplies by ten and adds the digit, and leading zeros or a plus sign
/// change nothing.
pub proof fn law_digits(s: Seq<char>, d: char, limit: nat)
    requires
        s.len() > 0,
        all_digits(s),
        '0' <= d <= '9',
    ensures
        decimal_value(s.push(d)) == 10 * decimal_value(s) + (d as nat - 48),
        decimal_value(seq!['0'] + s) == decimal_value(s),
        unsigned_of(seq!['+'] + s, limit) == unsigned_of(s, limit),
        unsigned_of(s, limit) is Some <==> decimal_value(s) <= limit,
{
    assert(s.push(d).drop_last() =~= s);
    lemma_leading_zero(s);
    assert((seq!['+'] + s).drop_first() =~= s);
    assert('0' <= s[0] <= '9');
}

proof fn lemma_leading_zero(s: Seq<char>)
    ensures
        decimal_value(seq!['0'] + s) == decimal_value(s),
    decreases s.len(),
{
    let t = seq!['0'] + s;
    if s.len() > 0 {
        lemma_leading_zero(s.drop_last());
        assert(t.drop_last() =~= seq!['0'] + s.drop_last());
        assert(t.last() == s.last());
    } else {
        assert(t.drop_last() =~= Seq::<char>::empty());
        assert(decimal_value(t.drop_last()) == 0);
        assert(t.last() == '0');
    }
}

/// A text with anything but digits in it, apart from one plus sign in front, is no number.
pub proof fn law_no_number(s: Seq<char>, i: int, limit: nat)
    requires
        0 <= i < s.len(),
        !('0' <= s[i] <= '9'),
        i > 0 || s[0] != '+',
    ensures
        unsigned_of(s, limit) is None,
{
    if s[0] == '+' {
        assert(s.drop_first()[i - 1] == s[i]);
    }
}

} // verus!
