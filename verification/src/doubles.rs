//! Durations and sizes as they are printed: through double-precision numbers, with a fixed
//! number of digits behind the point.

use vstd::prelude::*;
use vstd::arithmetic::power2::{lemma2_to64, lemma2_to64_rest, lemma_pow2_pos, lemma_pow2_unfold, pow2};
use crate::decimal::{decimal, push_decimal, push_wide_decimal};
use crate::score::{hundredths, nearest};

verus! {

/// How many bits a whole number has beyond the 53 that a double holds.
pub open spec fn extra_bits(n: nat) -> nat
    decreases n,
{
    if n < 0x20_0000_0000_0000 {
        0
    } else {
        1 + extra_bits(n / 2)
    }
}

/// The whole number that, times two to the power of the extra bits, is the double nearest
/// to `n`.
pub open spec fn double_significand(n: nat) -> nat {
    nearest(n, pow2(extra_bits(n)))
}

/// How often `m` is doubled until it is at least `floor`.
pub open spec fn doublings(m: nat, floor: nat) -> nat
    decreases
            (if m < floor {
                floor - m
            } else {
                0
            }),
{
    if m == 0 || m >= floor {
        0
    } else {
        1 + doublings(2 * m, floor)
    }
}

/// The least significand of a double, a thousand times.
pub open spec fn quotient_floor() -> nat {
    0x10_0000_0000_0000 * 1000
}

/// A number of thousandths, as a double, in hundredths: the double nearest to the thousandth
/// part of the double nearest to `n`, rounded to two digits behind the point.
pub open spec fn hundredths_of_thousandths(n: nat) -> nat {
    let m = double_significand(n);
    let k = extra_bits(n);
    let s = doublings(m, quotient_floor());
    let q = nearest(m * pow2(s), 1000);
    if s >= k {
        nearest(q * 100, pow2((s - k) as nat))
    } else {
        q * 100 * pow2((k - s) as nat)
    }
}

/// A number of milliseconds, printed as seconds with two digits behind the point.
pub open spec fn seconds_text(ms: nat) -> Seq<char> {
    hundredths(hundredths_of_thousandths(ms))
}

/// A number of milliseconds that may be negative, printed as seconds.
pub open spec fn signed_seconds_text(ms: int) -> Seq<char> {
    if ms < 0 {
        "-"@ + seconds_text((-ms) as nat)
    } else {
        ""@ + seconds_text(ms as nat)
    }
}

fn round_wide(num: u128, den: u128) -> (r: u128)
    requires
        den > 0,
        den <= 0x1000_0000_0000_0000_0000_0000,
    ensures
        r == nearest(num as nat, den as nat),
        r <= num / den + 1,
{
    let q: u128 = num / den;
    let rest: u128 = num % den;
    if 2 * rest > den || (2 * rest == den && q % 2 == 1) {
        assert(q < u128::MAX) by {
            if den == 1 {
                assert(rest == 0);
            } else {
                assert(q <= num / 2) by (nonlinear_arith)
                    requires
                        q == num / den,
                        den >= 2,
                ;
            }
        }
        q + 1
    } else {
        q
    }
}

fn power_of_two(k: u32) -> (r: u128)
    requires
        k <= 90,
    ensures
        r == pow2(k as nat),
        1 <= r <= 0x400_0000_0000_0000_0000_0000,
{
    let mut p: u128 = 1;
    let mut i: u32 = 0;
    proof {
        lemma2_to64();
        lemma_power_90();
    }
    while i < k
        invariant
            i <= k <= 90,
            p == pow2(i as nat),
            p >= 1,
            pow2(90) == 0x400_0000_0000_0000_0000_0000,
        decreases k - i,
    {
        proof {
            lemma_pow2_unfold((i + 1) as nat);
            lemma_grows((i + 1) as nat, 90);
        }
        p = p * 2;
        i += 1;
    }
    proof {
        lemma_grows(k as nat, 90);
    }
    p
}

proof fn lemma_grows(a: nat, b: nat)
    requires
        a <= b,
    ensures
        pow2(a) <= pow2(b),
    decreases b,
{
    if a < b {
        lemma_grows(a, (b - 1) as nat);
        lemma_pow2_unfold(b);
        lemma_pow2_pos((b - 1) as nat);
    }
}

proof fn lemma_power_90()
    ensures
        pow2(90) == 0x400_0000_0000_0000_0000_0000,
{
    lemma2_to64_rest();
    lemma2_to64();
    vstd::arithmetic::power2::lemma_pow2_adds(64, 26);
}

/// How many bits a number has beyond those that a double holds, at most 75.
fn count_extra_bits(n: u128) -> (r: u32)
    ensures
        r == extra_bits(n as nat),
        r <= 75,
        n < 0x20_0000_0000_0000 * pow2(r as nat),
{
    let mut t: u128 = n;
    let mut k: u32 = 0;
    proof {
        lemma_powers();
    }
    while t >= 0x20_0000_0000_0000
        invariant
            extra_bits(n as nat) == k + extra_bits(t as nat),
            n < (t + 1) * pow2(k as nat),
            k <= 75,
            t < pow2((128 - k) as nat),
            pow2(53) == 0x20_0000_0000_0000,
        decreases t,
    {
        proof {
            lemma_pow2_unfold((k + 1) as nat);
            lemma_pow2_unfold((128 - k) as nat);
            let p = pow2(k as nat);
            let u: nat = (t / 2) as nat;
            let tt: nat = t as nat;
            let nn: nat = n as nat;
            assert(nn < (u + 1) * (2 * p)) by (nonlinear_arith)
                requires
                    tt + 1 <= 2 * (u + 1),
                    nn < (tt + 1) * p,
            ;
        }
        t = t / 2;
        k += 1;
    }
    proof {
        let p = pow2(k as nat);
        let tt: nat = t as nat;
        let nn: nat = n as nat;
        assert(nn < 0x20_0000_0000_0000 * p) by (nonlinear_arith)
            requires
                nn < (tt + 1) * p,
                tt + 1 <= 0x20_0000_0000_0000,
        ;
    }
    k
}

proof fn lemma_powers()
    ensures
        pow2(0) == 1,
        pow2(53) == 0x20_0000_0000_0000,
        pow2(62) == 0x4000_0000_0000_0000,
        pow2(128) == 0x1_0000_0000_0000_0000_0000_0000_0000_0000nat,
{
    lemma2_to64();
    lemma2_to64_rest();
    vstd::arithmetic::power2::lemma_pow2_adds(64, 64);
}

/// A number of thousandths, as a double, in hundredths.
fn round_thousandths(n: u128) -> (r: u128)
    ensures
        r == hundredths_of_thousandths(n as nat),
{
    let k: u32 = count_extra_bits(n);
    let unit: u128 = power_of_two(k);
    let m: u128 = round_wide(n, unit);
    proof {
        let nn: nat = n as nat;
        let p: nat = unit as nat;
        assert(nn / p < 0x20_0000_0000_0000) by (nonlinear_arith)
            requires
                nn < 0x20_0000_0000_0000 * p,
                p > 0,
        ;
    }
    let mut x: u128 = m;
    let mut s: u32 = 0;
    proof {
        lemma_powers();
    }
    if m == 0 {
        proof {
            assert(m as nat * pow2(0) == 0);
            lemma_pow2_pos(k as nat);
            assert(nearest(0, 1000) == 0);
            lemma_zero(k as nat);
        }
        return 0;
    }
    while x < 4_503_599_627_370_496_000
        invariant
            1 <= m <= 0x20_0000_0000_0000,
            x >= 1,
            x == m * pow2(s as nat),
            doublings(m as nat, quotient_floor()) == s + doublings(x as nat, quotient_floor()),
            x <= 9_007_199_254_740_992_000,
            s <= 62,
            s > 0 ==> x <= 2 * 4_503_599_627_370_496_000,
            pow2(62) == 0x4000_0000_0000_0000,
        decreases 63 - s,
    {
        proof {
            lemma_pow2_unfold((s + 1) as nat);
            let p = pow2(s as nat);
            let mm: nat = m as nat;
            assert(2 * (mm * p) == mm * (2 * p)) by (nonlinear_arith);
            if s == 62 {
                assert(mm * p >= p) by (nonlinear_arith)
                    requires
                        mm >= 1,
                ;
            }
        }
        x = x * 2;
        s += 1;
    }
    let q: u128 = round_wide(x, 1000);
    let scaled: u128 = q * 100;
    if s >= k {
        let den: u128 = power_of_two(s - k);
        round_wide(scaled, den)
    } else {
        let factor: u128 = power_of_two(k - s);
        proof {
            lemma_factor(m as nat, k as nat, s as nat, factor as nat);
            assert(scaled * factor <= 0x8000_0000_0000_0000_0000_0000_0000_0000) by (nonlinear_arith)
                requires
                    0 <= scaled <= 0x1000_0000_0000_0000,
                    0 <= factor <= 0x4_0000_0000_0000_0000,
            ;
        }
        scaled * factor
    }
}

proof fn lemma_factor(m: nat, k: nat, s: nat, factor: nat)
    requires
        k <= 75,
        s < k,
        m <= 0x20_0000_0000_0000,
        m * pow2(s) >= 4_503_599_627_370_496_000,
        factor == pow2((k - s) as nat),
    ensures
        factor <= 0x4_0000_0000_0000_0000,
{
    lemma2_to64();
    lemma2_to64_rest();
    vstd::arithmetic::power2::lemma_pow2_adds(64, 2);
    if s <= 8 {
        lemma_grows(s, 8);
        let p = pow2(s);
        assert(m * p <= 0x20_0000_0000_0000 * 256) by (nonlinear_arith)
            requires
                m <= 0x20_0000_0000_0000,
                p <= 256,
        ;
    }
    lemma_grows((k - s) as nat, 66);
}

proof fn lemma_zero(k: nat)
    ensures
        nearest(0, pow2(k)) == 0,
        0 * pow2(k) == 0,
{
    lemma_pow2_pos(k);
    let d = pow2(k);
    assert(0nat / d == 0 && 0nat % d == 0) by (nonlinear_arith)
        requires
            d > 0,
    ;
}

/// Appends a number of milliseconds, printed as seconds with two digits behind the point.
pub fn push_seconds(out: &mut String, ms: u128)
    ensures
        final(out)@ == old(out)@ + seconds_text(ms as nat),
{
    let n: u128 = round_thousandths(ms);
    let ghost before = out@;
    push_wide_decimal(out, n / 100);
    out.append(".");
    push_wide_decimal(out, (n / 10) % 10);
    push_wide_decimal(out, n % 10);
    assert(out@ =~= before + hundredths(n as nat));
}

/// Appends a number of milliseconds that may be negative, printed as seconds.
pub fn push_signed_seconds(out: &mut String, ms: i64)
    ensures
        final(out)@ == old(out)@ + signed_seconds_text(ms as int),
{
    let ghost before = out@;
    if ms < 0 {
        out.append("-");
        let size: u128 = (-(ms as i128)) as u128;
        push_seconds(out, size);
        assert(out@ =~= before + signed_seconds_text(ms as int));
    } else {
        out.append("");
        push_seconds(out, ms as u128);
        assert(out@ =~= before + signed_seconds_text(ms as int));
    }
}

// ---------------------------------------------------------------------------
// Sizes
// ---------------------------------------------------------------------------

/// The unit of a size: how often 1024 divides it before less than 1024 is left, at most
/// four times.
pub open spec fn size_unit(bytes: u64) -> nat {
    if bytes < 0x400 {
        0
    } else if bytes < 0x10_0000 {
        1
    } else if bytes < 0x4000_0000 {
        2
    } else if bytes < 0x100_0000_0000 {
        3
    } else {
        4
    }
}

/// The name of a unit.
pub open spec fn unit_name(unit: nat) -> Seq<char> {
    if unit == 0 {
        "B"@
    } else if unit == 1 {
        "KiB"@
    } else if unit == 2 {
        "MiB"@
    } else if unit == 3 {
        "GiB"@
    } else {
        "TiB"@
    }
}

/// How many bytes a unit stands for.
pub open spec fn unit_bytes(unit: nat) -> nat {
    if unit == 0 {
        1
    } else if unit == 1 {
        0x400
    } else if unit == 2 {
        0x10_0000
    } else if unit == 3 {
        0x4000_0000
    } else {
        0x100_0000_0000
    }
}

/// A size in its unit: whole bytes, or one digit behind the point.
pub open spec fn size_text(bytes: u64) -> Seq<char> {
    let unit = size_unit(bytes);
    if unit == 0 {
        decimal(bytes as nat) + " "@ + unit_name(unit)
    } else {
        let value = double_significand(bytes as nat) * pow2(extra_bits(bytes as nat));
        let tenths = nearest(value * 10, unit_bytes(unit));
        decimal(tenths / 10) + "."@ + decimal(tenths % 10) + " "@ + unit_name(unit)
    }
}

/// The double nearest to a whole number.
fn as_double(n: u64) -> (r: u128)
    ensures
        r == double_significand(n as nat) * pow2(extra_bits(n as nat)),
        r <= 0x2_0000_0000_0000_0000,
{
    let k: u32 = count_extra_bits(n as u128);
    let unit: u128 = power_of_two(k);
    let m: u128 = round_wide(n as u128, unit);
    proof {
        let nn: nat = n as nat;
        let p: nat = unit as nat;
        let mm: nat = m as nat;
        lemma_small_extra(nn);
        lemma2_to64();
        lemma_grows(k as nat, 11);
        assert(mm * p <= nn + p) by (nonlinear_arith)
            requires
                mm <= nn / p + 1,
                p > 0,
        ;
    }
    m * unit
}

proof fn lemma_small_extra(n: nat)
    requires
        n < 0x1_0000_0000_0000_0000,
    ensures
        extra_bits(n) <= 11,
{
    reveal_with_fuel(extra_bits, 13);
}

/// A size in its unit.
pub fn format_bytes(bytes: u64) -> (r: String)
    ensures
        r@ == size_text(bytes),
{
    let mut out = String::new();
    if bytes < 0x400 {
        push_decimal(&mut out, bytes);
        out.append(" ");
        out.append("B");
        assert(out@ =~= size_text(bytes));
        return out;
    }
    let value: u128 = as_double(bytes);
    let (den, name): (u128, &str) = if bytes < 0x10_0000 {
        (0x400, "KiB")
    } else if bytes < 0x4000_0000 {
        (0x10_0000, "MiB")
    } else if bytes < 0x100_0000_0000 {
        (0x4000_0000, "GiB")
    } else {
        (0x100_0000_0000, "TiB")
    };
    let tenths: u128 = round_wide(value * 10, den);
    push_wide_decimal(&mut out, tenths / 10);
    out.append(".");
    push_wide_decimal(&mut out, tenths % 10);
    out.append(" ");
    out.append(name);
    assert(out@ =~= size_text(bytes));
    out
}

/// The bits that a double drops are just as many as it must: with them a whole number has 53
/// bits left, and none is dropped of a smaller one.
pub proof fn law_extra_bits(n: nat)
    ensures
        n < 0x20_0000_0000_0000 * pow2(extra_bits(n)),
        extra_bits(n) > 0 ==> 0x20_0000_0000_0000 * pow2((extra_bits(n) - 1) as nat) <= n,
    decreases n,
{
    let k = extra_bits(n);
    if n < 0x20_0000_0000_0000 {
        lemma2_to64();
    } else {
        law_extra_bits(n / 2);
        let h = extra_bits(n / 2);
        lemma_pow2_unfold(k);
        assert(pow2(k) == 2 * pow2(h));
        if h > 0 {
            lemma_pow2_unfold(h);
        } else {
            lemma2_to64();
        }
    }
}

/// The double of a whole number is off by at most half of what its last bit stands for, and
/// not at all for a number of 53 bits.
pub proof fn law_double_nearest(n: nat)
    ensures
        2 * n <= 2 * (double_significand(n) * pow2(extra_bits(n))) + pow2(extra_bits(n)),
        2 * (double_significand(n) * pow2(extra_bits(n))) <= 2 * n + pow2(extra_bits(n)),
        n < 0x20_0000_0000_0000 ==> extra_bits(n) == 0 && double_significand(n) == n,
{
    lemma_pow2_pos(extra_bits(n));
    crate::score::law_nearest(n, pow2(extra_bits(n)));
    lemma2_to64();
}

/// A number is doubled until it reaches the floor, and no further.
pub proof fn law_doublings(m: nat, floor: nat)
    requires
        m > 0,
    ensures
        m * pow2(doublings(m, floor)) >= floor,
        doublings(m, floor) > 0 ==> m * pow2((doublings(m, floor) - 1) as nat) < floor,
    decreases
            (if m < floor {
                floor - m
            } else {
                0
            }),
{
    let s = doublings(m, floor);
    if m >= floor {
        lemma2_to64();
        assert(m * pow2(0) == m) by (nonlinear_arith)
            requires
                pow2(0) == 1,
        ;
    } else {
        law_doublings(2 * m, floor);
        let h = doublings(2 * m, floor);
        lemma_pow2_unfold(s);
        assert(m * pow2(s) == (2 * m) * pow2(h)) by (nonlinear_arith)
            requires
                pow2(s) == 2 * pow2(h),
        ;
        if h > 0 {
            lemma_pow2_unfold(h);
            assert(m * pow2(h) == (2 * m) * pow2((h - 1) as nat)) by (nonlinear_arith)
                requires
                    pow2(h) == 2 * pow2((h - 1) as nat),
            ;
        } else {
            lemma2_to64();
            assert(m * pow2(0) == m) by (nonlinear_arith)
                requires
                    pow2(0) == 1,
            ;
        }
    }
}

/// A size is told in the largest unit of which it has at least one, and each unit is 1024 of
/// the one below.
pub proof fn law_size_unit(bytes: u64, unit: nat)
    ensures
        size_unit(bytes) <= 4,
        size_unit(bytes) > 0 ==> bytes >= unit_bytes(size_unit(bytes)),
        size_unit(bytes) < 4 ==> bytes < 1024 * unit_bytes(size_unit(bytes)),
        unit < 4 ==> unit_bytes(unit + 1) == 1024 * unit_bytes(unit),
        unit_bytes(0) == 1,
{
}

/// A size below one KiB is told in whole bytes. Another one is told to the nearest tenth of
/// its unit.
pub proof fn law_size_text(bytes: u64, tenths: nat)
    requires
        bytes < 0x20_0000_0000_0000,
        2 * (tenths * unit_bytes(size_unit(bytes))) < 20 * bytes + unit_bytes(size_unit(bytes)),
        20 * bytes < 2 * (tenths * unit_bytes(size_unit(bytes))) + unit_bytes(size_unit(bytes)),
    ensures
        bytes < 1024 ==> size_text(bytes) == decimal(bytes as nat) + " "@ + "B"@,
        1024 <= bytes < 1_048_576 ==> size_text(bytes) == decimal(tenths / 10) + "."@ + decimal(
            tenths % 10,
        ) + " "@ + "KiB"@,
        1_048_576 <= bytes < 1_073_741_824 ==> size_text(bytes) == decimal(tenths / 10) + "."@
            + decimal(tenths % 10) + " "@ + "MiB"@,
        1_073_741_824 <= bytes < 1_099_511_627_776 ==> size_text(bytes) == decimal(tenths / 10)
            + "."@ + decimal(tenths % 10) + " "@ + "GiB"@,
        1_099_511_627_776 <= bytes ==> size_text(bytes) == decimal(tenths / 10) + "."@ + decimal(
            tenths % 10,
        ) + " "@ + "TiB"@,
{
    let u = unit_bytes(size_unit(bytes));
    law_double_nearest(bytes as nat);
    lemma2_to64();
    let value = double_significand(bytes as nat) * pow2(extra_bits(bytes as nat));
    assert(value == bytes) by (nonlinear_arith)
        requires
            value == bytes as nat * pow2(0),
            pow2(0) == 1,
    ;
    crate::score::law_nearest(value * 10, u);
    let t = nearest(value * 10, u);
    assert(t == tenths) by (nonlinear_arith)
        requires
            u > 0,
            2 * (tenths * u) < 20 * bytes + u,
            20 * bytes < 2 * (tenths * u) + u,
            20 * bytes <= 2 * (t * u) + u,
            2 * (t * u) <= 20 * bytes + u,
    ;
}

/// A number of thousandths is rounded to the nearest hundredth: to one that is less than half
/// a hundredth away, where there is one.
pub proof fn law_seconds_rounded(n: nat, hundredth: nat)
    requires
        0 < n < 0x20_0000_0000_0000,
        10 * hundredth < n + 5,
        n < 10 * hundredth + 5,
    ensures
        hundredths_of_thousandths(n) == hundredth,
{
    law_double_nearest(n);
    lemma2_to64();
    let s = doublings(n, quotient_floor());
    law_doublings(n, quotient_floor());
    let p = pow2(s);
    lemma_pow2_pos(s);
    let q = nearest(n * p, 1000);
    crate::score::law_nearest(n * p, 1000);
    let h = nearest(q * 100, p);
    crate::score::law_nearest(q * 100, p);
    assert(p > 500) by (nonlinear_arith)
        requires
            n * p >= 0x10_0000_0000_0000 * 1000,
            n < 0x20_0000_0000_0000,
    ;
    lemma_two_roundings(n as int, p as int, q as int, h as int, hundredth as int);
}

proof fn lemma_two_roundings(n: int, p: int, q: int, h: int, wanted: int)
    requires
        p > 500,
        n > 0,
        2 * (n * p) <= 2 * (q * 1000) + 1000,
        2 * (q * 1000) <= 2 * (n * p) + 1000,
        2 * (q * 100) <= 2 * (h * p) + p,
        2 * (h * p) <= 2 * (q * 100) + p,
        10 * wanted < n + 5,
        n < 10 * wanted + 5,
    ensures
        h == wanted,
{
    let e = n - 10 * wanted;
    assert(-4 <= e <= 4);
    let d = h - wanted;
    assert(n * p == 10 * (wanted * p) + e * p) by (nonlinear_arith)
        requires
            n == 10 * wanted + e,
    ;
    assert(h * p == wanted * p + d * p) by (nonlinear_arith)
        requires
            h == wanted + d,
    ;
    assert(20 * (d * p) <= 2 * (e * p) + 1000 + 10 * p);
    assert(20 * (d * p) >= 2 * (e * p) - 1000 - 10 * p);
    assert(e * p <= 4 * p) by (nonlinear_arith)
        requires
            e <= 4,
            p > 500,
    ;
    assert(e * p >= -4 * p) by (nonlinear_arith)
        requires
            e >= -4,
            p > 500,
    ;
    if d >= 1 {
        assert(d * p >= p) by (nonlinear_arith)
            requires
                d >= 1,
                p > 500,
        ;
        assert(false);
    }
    if d <= -1 {
        assert(d * p <= -p) by (nonlinear_arith)
            requires
                d <= -1,
                p > 500,
        ;
        assert(false);
    }
}

} // verus!
