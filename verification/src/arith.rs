//! The arithmetic that the pipeline does on samples: the mean of two, and the conversions
//! between samples and integers, in binary32 with rounding to nearest, ties to even.

use crate::rounding::{
    lemma_nearest_is_unique, lemma_nearest_keeps_order, lemma_scaled_grows, lemma_scaled_of,
    lemma_scaled_step, nearest_pattern, STEPS,
};
use crate::sample::{absolute, nan, Sample, INFINITY, ONE, SIGN};
use vstd::arithmetic::power2::{lemma2_to64, lemma_pow2_adds, lemma_pow2_pos, lemma_pow2_strictly_increases};
use vstd::prelude::*;

verus! {

/// A quiet NaN.
pub const NAN: Sample = 0x7fc0_0000;

/// The value of a finite sample, times 2 to the power of 149.
pub open spec fn value(s: Sample) -> int {
    if s < SIGN {
        crate::rounding::scaled(s as int)
    } else {
        -crate::rounding::scaled(s - SIGN)
    }
}

/// The pattern without sign nearest to `x` times 2 to the power of -149: that of infinity
/// where `x` is too large.
pub open spec fn bounded_pattern(x: int) -> int {
    if x == 0 {
        0
    } else if crate::rounding::rounded(x) >= INFINITY {
        INFINITY as int
    } else {
        crate::rounding::rounded(x)
    }
}

/// The sample nearest to `x` times 2 to the power of -149; zero has no sign.
pub open spec fn nearest_sample(x: int) -> int {
    if x < 0 {
        SIGN + bounded_pattern(-x)
    } else {
        bounded_pattern(x)
    }
}

/// The sum of two finite samples. It is a negative zero only where both are.
pub open spec fn sum(l: Sample, r: Sample) -> int {
    if l == SIGN && r == SIGN {
        SIGN as int
    } else {
        nearest_sample(value(l) + value(r))
    }
}

/// Half of a pattern without sign. Above the smallest exponents that is one power of two less;
/// below, a tie goes to the even pattern.
pub open spec fn half_pattern(m: int) -> int {
    if m >= INFINITY {
        m
    } else if m >= 2 * STEPS {
        m - STEPS
    } else if m % 4 == 3 {
        m / 2 + 1
    } else {
        m / 2
    }
}

/// Half of a sample.
pub open spec fn half(s: int) -> int {
    if s < SIGN {
        half_pattern(s)
    } else {
        SIGN + half_pattern(s - SIGN)
    }
}

/// Whether `s` is one of the two infinities.
pub open spec fn is_infinite(s: Sample) -> bool {
    crate::sample::magnitude(s) == INFINITY
}

/// The mean of two samples: half of their sum, where that is a number.
pub open spec fn mean_of(l: Sample, r: Sample) -> int {
    if crate::sample::is_nan(l) || crate::sample::is_nan(r) || (is_infinite(l) && is_infinite(r)
        && l != r) {
        NAN as int
    } else if is_infinite(l) {
        l as int
    } else if is_infinite(r) {
        r as int
    } else {
        half(sum(l, r))
    }
}

/// The exponent field of a pattern without sign, at least 1.
pub open spec fn exponent(m: int) -> int {
    if m < STEPS {
        1
    } else {
        m / STEPS as int
    }
}

/// The significand of a pattern without sign.
pub open spec fn significand(m: int) -> int {
    if m < STEPS {
        m
    } else {
        m % STEPS as int + STEPS
    }
}

/// A pattern's value is its significand times a power of two.
pub proof fn lemma_parts(m: int)
    requires
        0 <= m,
    ensures
        1 <= exponent(m),
        0 <= significand(m) < 2 * STEPS,
        m >= STEPS ==> significand(m) >= STEPS,
        m > 0 ==> significand(m) > 0,
        crate::rounding::scaled(m) == significand(m) * vstd::arithmetic::power2::pow2(
            (exponent(m) - 1) as nat,
        ),
{
    lemma2_to64();
    if m >= STEPS {
        assert(m / STEPS as int >= 1) by (nonlinear_arith)
            requires
                m >= STEPS,
                STEPS == 0x80_0000,
        ;
    } else {
        assert(m * 1 == m);
    }
}

fn parts(m: u32) -> (p: (u32, u64))
    requires
        m <= INFINITY,
    ensures
        p.0 == exponent(m as int),
        p.1 == significand(m as int),
        p.0 <= 255,
        m < INFINITY ==> p.0 <= 254,
        p.1 < 2 * STEPS,
        m > 0 ==> p.1 > 0,
        crate::rounding::scaled(m as int) == p.1 * vstd::arithmetic::power2::pow2(
            (p.0 - 1) as nat,
        ),
{
    proof {
        lemma_parts(m as int);
    }
    if m < STEPS {
        (1, m as u64)
    } else {
        (m / STEPS, (m % STEPS + STEPS) as u64)
    }
}

/// Two to the power of `n`.
fn power(n: u32) -> (p: u64)
    requires
        n <= 30,
    ensures
        p == vstd::arithmetic::power2::pow2(n as nat),
        1 <= p <= 0x4000_0000,
{
    proof {
        lemma2_to64();
    }
    let mut p: u64 = 1;
    let mut i: u32 = 0;
    while i < n
        invariant
            i <= n <= 30,
            p == vstd::arithmetic::power2::pow2(i as nat),
            vstd::arithmetic::power2::pow2(30) == 0x4000_0000,
            vstd::arithmetic::power2::pow2(1) == 2,
        decreases n - i,
    {
        proof {
            lemma_pow2_adds(i as nat, 1);
            lemma_pow2_strictly_increases(i as nat, 30);
        }
        p = p * 2;
        i += 1;
    }
    proof {
        lemma_pow2_pos(n as nat);
        if n < 30 {
            lemma_pow2_strictly_increases(n as nat, 30);
        }
    }
    p
}

/// The bounded pattern is the one that is nearest, cut off at infinity.
proof fn lemma_bounded(x: int, r: int)
    requires
        x > 0,
        0 < r,
        crate::rounding::nearest(x, r),
    ensures
        bounded_pattern(x) == (if r >= INFINITY {
            INFINITY as int
        } else {
            r
        }),
{
    let c = crate::rounding::rounded(x);
    assert(0 < c && crate::rounding::nearest(x, c));
    lemma_nearest_is_unique(x, c, r);
}

fn bounded(r: Sample) -> (m: Sample)
    ensures
        m == (if r >= INFINITY {
            INFINITY
        } else {
            r
        }),
{
    if r >= INFINITY {
        INFINITY
    } else {
        r
    }
}

/// A summand of much smaller exponent does not change the rounded sum.
proof fn lemma_small_summand_vanishes(h: int, l: int, minus: bool)
    requires
        0 <= l,
        0 < h,
        exponent(h) > exponent(l) + 28,
    ensures
        ({
            let x = if minus {
                crate::rounding::scaled(h) - crate::rounding::scaled(l)
            } else {
                crate::rounding::scaled(h) + crate::rounding::scaled(l)
            };
            x > 0 && crate::rounding::nearest(x, h)
        }),
{
    let n = STEPS as int;
    let e = exponent(h);
    let f = significand(h);
    let el = exponent(l);
    let fl = significand(l);
    lemma_parts(h);
    lemma_parts(l);
    lemma_parts(h - 1);
    lemma_parts(h + 1);
    lemma2_to64();
    // The value of `l` is below a quarter of the distance from `h` to either neighbour.
    let pl = vstd::arithmetic::power2::pow2((el - 1) as nat) as int;
    let pq = vstd::arithmetic::power2::pow2((e - 2) as nat) as int;
    let p = vstd::arithmetic::power2::pow2((e - 1) as nat) as int;
    lemma_pow2_pos((el - 1) as nat);
    lemma_pow2_adds(1, (e - 2) as nat);
    assert(p == 2 * pq);
    lemma_pow2_adds((el - 1) as nat, 26);
    let pm = vstd::arithmetic::power2::pow2((el + 25) as nat) as int;
    assert(pm == pl * 0x400_0000);
    if el + 25 < e - 2 {
        lemma_pow2_strictly_increases((el + 25) as nat, (e - 2) as nat);
    }
    let sl = crate::rounding::scaled(l);
    assert(4 * sl < pm) by (nonlinear_arith)
        requires
            sl == fl * pl,
            0 <= fl < 0x100_0000,
            pl > 0,
            pm == pl * 0x400_0000,
    ;
    assert(sl >= 0) by (nonlinear_arith)
        requires
            sl == fl * pl,
            0 <= fl,
            pl > 0,
    ;
    assert(4 * sl < pq);
    assert(h == e * n + (f - n)) by (nonlinear_arith)
        requires
            h >= n,
            e == h / n,
            f == h % n + n,
            n > 0,
    ;
    let sh = crate::rounding::scaled(h);
    assert(sh == f * p);
    // Below `h` the step is one unit, or half of one where `h` starts its exponent.
    if f > n {
        lemma_scaled_of(e, f - 1);
        assert((f - 1) * p == f * p - p) by (nonlinear_arith);
    } else {
        lemma_scaled_of(e - 1, 2 * n - 1);
        assert((e - 1) * n + (2 * n - 1 - n) == h - 1) by (nonlinear_arith)
            requires
                h == e * n + (f - n),
                f == n,
        ;
        assert((2 * n - 1) * pq == n * p - pq) by (nonlinear_arith)
            requires
                p == 2 * pq,
        ;
    }
    assert(crate::rounding::scaled(h - 1) <= sh - pq);
    if f + 1 < 2 * n {
        lemma_scaled_of(e, f + 1);
        assert((f + 1) * p == f * p + p) by (nonlinear_arith);
    } else {
        lemma_scaled_of(e + 1, n);
        lemma_pow2_adds(1, (e - 1) as nat);
        let p2 = vstd::arithmetic::power2::pow2(e as nat) as int;
        assert((e + 1) * n + (n - n) == h + 1) by (nonlinear_arith)
            requires
                h == e * n + (f - n),
                f == 2 * n - 1,
        ;
        assert(n * p2 == f * p + p) by (nonlinear_arith)
            requires
                p2 == 2 * p,
                f == 2 * n - 1,
        ;
    }
    assert(crate::rounding::scaled(h + 1) == sh + p);
    assert(sh >= pq) by (nonlinear_arith)
        requires
            sh == f * p,
            f >= 1,
            p == 2 * pq,
            pq > 0,
    ;
}

/// The bounded pattern of the sum or the difference of two patterns of which the first is not
/// the smaller one; zero where they cancel out.
fn combine(h: u32, l: u32, minus: bool) -> (m: Sample)
    requires
        l <= h < INFINITY,
    ensures
        m == bounded_pattern(
            if minus {
                crate::rounding::scaled(h as int) - crate::rounding::scaled(l as int)
            } else {
                crate::rounding::scaled(h as int) + crate::rounding::scaled(l as int)
            },
        ),
        m <= INFINITY,
        m == 0 <==> (if minus {
            crate::rounding::scaled(h as int) == crate::rounding::scaled(l as int)
        } else {
            h == 0
        }),
        minus ==> crate::rounding::scaled(h as int) >= crate::rounding::scaled(l as int),
        !minus && h > 0 ==> crate::rounding::scaled(h as int) + crate::rounding::scaled(l as int)
            > 0,
{
    proof {
        if l < h {
            lemma_scaled_grows(l as int, h as int);
        }
        if 0 < l {
            lemma_scaled_grows(0, l as int);
        }
        if 0 < h {
            lemma_scaled_grows(0, h as int);
        }
    }
    let ghost x: int = if minus {
        crate::rounding::scaled(h as int) - crate::rounding::scaled(l as int)
    } else {
        crate::rounding::scaled(h as int) + crate::rounding::scaled(l as int)
    };
    let (eh, fh) = parts(h);
    let (el, fl) = parts(l);
    proof {
        assert(eh >= el) by {
            if h >= STEPS && l >= STEPS {
                let n = STEPS as int;
                let a = h as int;
                let b = l as int;
                assert(a / n >= b / n) by (nonlinear_arith)
                    requires
                        a >= b,
                        n > 0,
                ;
            }
        }
    }
    if eh - el > 28 {
        proof {
            lemma_small_summand_vanishes(h as int, l as int, minus);
            lemma_bounded(x, h as int);
        }
        return h;
    }
    let scale: u64 = power(eh - el);
    proof {
        lemma2_to64();
        if eh - el < 28 {
            lemma_pow2_strictly_increases((eh - el) as nat, 28);
        }
        let a = fh as int;
        let b = scale as int;
        assert(0 <= a * b < 0x10_0000_0000_0000) by (nonlinear_arith)
            requires
                0 <= a < 0x100_0000,
                0 < b <= 0x1000_0000,
        ;
    }
    let wide: u64 = fh * scale;
    proof {
        lemma_pow2_adds((eh - el) as nat, (el - 1) as nat);
        lemma_pow2_pos((el - 1) as nat);
        let p = vstd::arithmetic::power2::pow2((el - 1) as nat) as int;
        let a = fh as int;
        let b = scale as int;
        let c = fl as int;
        assert(a * (b * p) == (a * b) * p) by (nonlinear_arith);
        assert((wide as int) * p - c * p == (wide - c) * p) by (nonlinear_arith);
        assert((wide as int) * p + c * p == (wide + c) * p) by (nonlinear_arith);
        assert(minus ==> x == (wide - c) * p);
        assert(!minus ==> x == (wide + c) * p);
        if minus {
            assert(wide >= fl) by (nonlinear_arith)
                requires
                    (wide - c) * p >= 0,
                    p > 0,
                    c == fl,
            ;
        }
        let w = wide as int;
        assert((w - c) * p == 0 <==> w == c) by (nonlinear_arith)
            requires
                p > 0,
        ;
        assert((w + c) * p == 0 <==> w + c == 0) by (nonlinear_arith)
            requires
                p > 0,
        ;
    }
    let d: u64 = if minus {
        wide - fl
    } else {
        wide + fl
    };
    if d == 0 {
        return 0;
    }
    let r: Sample = nearest_pattern(d, el);
    proof {
        assert(x > 0);
        lemma_bounded(x, r as int);
    }
    bounded(r)
}

/// The mean of two samples: half of their sum.
pub fn mean(l: Sample, r: Sample) -> (m: Sample)
    ensures
        m == mean_of(l, r),
{
    let ml: Sample = absolute(l);
    let mr: Sample = absolute(r);
    if nan(l) || nan(r) || (ml == INFINITY && mr == INFINITY && l != r) {
        return NAN;
    }
    if ml == INFINITY {
        return l;
    }
    if mr == INFINITY {
        return r;
    }
    if l == SIGN && r == SIGN {
        return SIGN;
    }
    let (h, s) = if ml >= mr {
        (ml, mr)
    } else {
        (mr, ml)
    };
    let negative: bool = if ml >= mr {
        l >= SIGN
    } else {
        r >= SIGN
    };
    let m: Sample = combine(h, s, (l >= SIGN) != (r >= SIGN));
    let halved: Sample = if m >= INFINITY {
        m
    } else if m >= 2 * STEPS {
        m - STEPS
    } else if m % 4 == 3 {
        m / 2 + 1
    } else {
        m / 2
    };
    if negative && m != 0 {
        SIGN + halved
    } else {
        halved
    }
}

/// The sample of `v` units of 2 to the power of `unit - 150`.
fn from_units(v: i64, unit: u32) -> (s: Sample)
    requires
        -0x8000_0000 <= v <= 0x8000_0000,
        64 <= unit <= 160,
    ensures
        s == nearest_sample(v * vstd::arithmetic::power2::pow2((unit - 1) as nat)),
        -0x100_0000 < v < 0x100_0000 ==> value(s) == v * vstd::arithmetic::power2::pow2(
            (unit - 1) as nat,
        ),
{
    let ghost p = vstd::arithmetic::power2::pow2((unit - 1) as nat) as int;
    proof {
        lemma_pow2_pos((unit - 1) as nat);
    }
    if v == 0 {
        return 0;
    }
    let negative: bool = v < 0;
    let d: u64 = if negative {
        (-v) as u64
    } else {
        v as u64
    };
    let r: Sample = nearest_pattern(d, unit);
    proof {
        let a = d as int;
        let b = v as int;
        assert(a * p > 0) by (nonlinear_arith)
            requires
                a > 0,
                p > 0,
        ;
        assert(negative ==> b * p == -(a * p)) by (nonlinear_arith)
            requires
                negative ==> b == -a,
        ;
        lemma_bounded(a * p, r as int);
    }
    if negative {
        SIGN + r
    } else {
        r
    }
}

/// A signed 16-bit sample as a fraction of 32768: from -1 up to just below 1, exactly.
pub fn from_i16(v: i16) -> (s: Sample)
    ensures
        s == nearest_sample(v * vstd::arithmetic::power2::pow2(134)),
        value(s) == v * vstd::arithmetic::power2::pow2(134),
{
    from_units(v as i64, 135)
}

/// An unsigned 16-bit sample as a fraction of 32768 around its middle, exactly.
pub fn from_u16(v: u16) -> (s: Sample)
    ensures
        s == nearest_sample((v - 32_768) * vstd::arithmetic::power2::pow2(134)),
        value(s) == (v - 32_768) * vstd::arithmetic::power2::pow2(134),
{
    from_units(v as i64 - 32_768, 135)
}

/// A signed 32-bit sample as a fraction of 2 to the power of 31, rounded to 24 binary digits.
pub fn from_i32(v: i32) -> (s: Sample)
    ensures
        s == nearest_sample(v * vstd::arithmetic::power2::pow2(118)),
{
    from_units(v as i64, 119)
}

/// Bit pattern of `32767.0`.
const FULL_SCALE: Sample = 0x46ff_fe00;

/// A sample as a signed 16-bit integer: its value, held within -1 and 1, times 32767, rounded
/// to a sample and cut off towards zero. A NaN is 0.
pub open spec fn quantized(s: Sample) -> int {
    let m = if crate::sample::magnitude(s) > ONE {
        ONE as int
    } else {
        crate::sample::magnitude(s)
    };
    let product = bounded_pattern(crate::rounding::scaled(m) * 32_767);
    let whole = crate::rounding::scaled(product) / vstd::arithmetic::power2::pow2(149) as int;
    if crate::sample::is_nan(s) {
        0
    } else if s < SIGN {
        whole
    } else {
        -whole
    }
}

proof fn lemma_full_scale()
    ensures
        crate::rounding::scaled(ONE as int) == vstd::arithmetic::power2::pow2(149),
        crate::rounding::scaled(FULL_SCALE as int) == 32_767 * vstd::arithmetic::power2::pow2(149),
        crate::rounding::nearest(
            32_767 * vstd::arithmetic::power2::pow2(149) as int,
            FULL_SCALE as int,
        ),
{
    lemma2_to64();
    assert(ONE as int == 127 * STEPS + (0x80_0000 - STEPS));
    lemma_scaled_of(127, 0x80_0000);
    lemma_pow2_adds(23, 126);
    assert(vstd::arithmetic::power2::pow2(23) == 0x80_0000);
    assert(FULL_SCALE as int == 141 * STEPS + (0xff_fe00 - STEPS));
    lemma_scaled_of(141, 0xff_fe00);
    lemma_pow2_adds(9, 140);
    assert(vstd::arithmetic::power2::pow2(9) == 512);
    let p = vstd::arithmetic::power2::pow2(140) as int;
    assert(0xff_fe00 * p == 32_767 * (512 * p)) by (nonlinear_arith);
    lemma_scaled_step(FULL_SCALE - 1);
    lemma_scaled_step(FULL_SCALE as int);
}

/// A sample as a signed 16-bit integer.
pub fn to_i16(s: Sample) -> (v: i16)
    ensures
        v == quantized(s),
        -32_767 <= v <= 32_767,
{
    if nan(s) {
        return 0;
    }
    let magnitude: Sample = absolute(s);
    let m: Sample = if magnitude > ONE {
        ONE
    } else {
        magnitude
    };
    let ghost unit149 = vstd::arithmetic::power2::pow2(149) as int;
    proof {
        lemma_pow2_pos(149);
        lemma2_to64();
    }
    if m == 0 {
        assert(0int / unit149 == 0) by (nonlinear_arith)
            requires
                unit149 > 0,
        ;
        return 0;
    }
    let (e, f) = parts(m);
    assert(e <= 127) by {
        if m >= STEPS {
            assert(m as int / 0x80_0000 <= 127);
        }
    }
    let p: Sample = nearest_pattern(f * 32_767, e);
    let ghost x: int = crate::rounding::scaled(m as int) * 32_767;
    proof {
        let a = f as int;
        let b = vstd::arithmetic::power2::pow2((e - 1) as nat) as int;
        assert(a * b * 32_767 == (a * 32_767) * b) by (nonlinear_arith);
        lemma_pow2_pos((e - 1) as nat);
        assert(a * b > 0) by (nonlinear_arith)
            requires
                a > 0,
                b > 0,
        ;
        lemma_bounded(x, p as int);
        lemma_full_scale();
        if m < ONE {
            lemma_scaled_grows(m as int, ONE as int);
        }
        lemma_nearest_keeps_order(x, 32_767 * unit149, p as int, FULL_SCALE as int);
        if p < FULL_SCALE {
            lemma_scaled_grows(p as int, FULL_SCALE as int);
        }
    }
    let (ep, fp) = parts(p);
    assert(ep <= 141) by {
        if p >= STEPS {
            assert(p as int / 0x80_0000 <= 141);
        }
    }
    let ghost whole = crate::rounding::scaled(p as int) / unit149;
    let shift: u32 = 150 - ep;
    let ghost low = vstd::arithmetic::power2::pow2((ep - 1) as nat) as int;
    let ghost high = vstd::arithmetic::power2::pow2(shift as nat) as int;
    proof {
        lemma_pow2_adds((ep - 1) as nat, shift as nat);
        lemma_pow2_pos((ep - 1) as nat);
        lemma_pow2_pos(shift as nat);
        let a = fp as int;
        assert((a * low) / (low * high) == a / high) by {
            lemma_quotient_without_factor(a, low, high);
        }
        assert(whole == a / high);
        let top = crate::rounding::scaled(p as int);
        assert(top / unit149 <= 32_767) by (nonlinear_arith)
            requires
                top <= 32_767 * unit149,
                unit149 > 0,
        ;
        if shift >= 24 {
            if shift > 24 {
                lemma_pow2_strictly_increases(24, shift as nat);
            }
            assert(a / high == 0) by (nonlinear_arith)
                requires
                    0 <= a < high,
            ;
        }
    }
    let t: u64 = if shift >= 24 {
        0
    } else {
        let place: u64 = power(shift);
        fp / place
    };
    if s < SIGN {
        t as i16
    } else {
        -(t as i16)
    }
}

/// A common factor does not change a quotient.
proof fn lemma_quotient_without_factor(a: int, low: int, high: int)
    requires
        0 <= a,
        0 < low,
        0 < high,
    ensures
        (a * low) / (low * high) == a / high,
{
    vstd::arithmetic::div_mod::lemma_div_denominator(a * low, low, high);
    vstd::arithmetic::div_mod::lemma_div_by_multiple(a, low);
}

/// A sample is the nearest one to its own value: what has a sample of its own is never rounded.
pub proof fn lemma_values_come_back(s: Sample)
    requires
        s < 0x7f80_0000 || 0x8000_0000 < s < 0xff80_0000,
    ensures
        nearest_sample(value(s)) == s,
{
    let m = if s < SIGN {
        s as int
    } else {
        s - SIGN
    };
    if m > 0 {
        crate::rounding::lemma_own_pattern_is_nearest(m);
    }
}

/// No sample is nearer to a number than the one that it is rounded to, where that is finite;
/// the sign stays, and a number is rounded to infinity only from the middle between the largest
/// finite sample and the next power of two on.
pub proof fn lemma_nothing_is_nearer(x: int, q: Sample)
    requires
        q < 0x7f80_0000 || 0x8000_0000 <= q < 0xff80_0000,
    ensures
        ({
            let s = nearest_sample(x);
            let off = value(s as Sample) - x;
            let other = value(q) - x;
            &&& 0 <= s <= 0xff80_0000
            &&& x == 0 ==> s == 0
            &&& x > 0 ==> s <= 0x7f80_0000
            &&& x < 0 ==> s >= 0x8000_0000
            &&& s != 0x7f80_0000 && s != 0xff80_0000 ==> (off <= other || off <= -other) && (-off
                <= other || -off <= -other)
            &&& s == 0x7f80_0000 ==> 2 * x >= crate::rounding::scaled(0x7f7f_ffff)
                + crate::rounding::scaled(0x7f80_0000)
            &&& s == 0xff80_0000 ==> -2 * x >= crate::rounding::scaled(0x7f7f_ffff)
                + crate::rounding::scaled(0x7f80_0000)
        }),
{
    let m = if q < SIGN {
        q as int
    } else {
        q - SIGN
    };
    let a = if x < 0 {
        -x
    } else {
        x
    };
    if 0 < m {
        lemma_scaled_grows(0, m);
    }
    if a > 0 {
        crate::rounding::lemma_there_is_a_nearest(a);
        let r = crate::rounding::rounded(a);
        crate::rounding::lemma_nearest_is_nearest(a, r, m);
        crate::rounding::lemma_nearest_is_nearest(a, r, 0);
        if r > INFINITY {
            lemma_scaled_grows(0x7f7f_ffff, r - 1);
            lemma_scaled_grows(0x7f80_0000, r);
        }
    }
}

/// The same of a sum: of two finite samples it is the sample that is nearest to the sum of their
/// values, and it does not matter which of them comes first.
pub proof fn lemma_nothing_is_nearer_to_a_sum(l: Sample, r: Sample, q: Sample)
    requires
        l < 0x7f80_0000 || 0x8000_0000 <= l < 0xff80_0000,
        r < 0x7f80_0000 || 0x8000_0000 <= r < 0xff80_0000,
        q < 0x7f80_0000 || 0x8000_0000 <= q < 0xff80_0000,
    ensures
        sum(l, r) == sum(r, l),
        ({
            let s = sum(l, r);
            let x = value(l) + value(r);
            let off = value(s as Sample) - x;
            let other = value(q) - x;
            &&& 0 <= s <= 0xff80_0000
            &&& s != 0x7f80_0000 && s != 0xff80_0000 ==> (off <= other || off <= -other) && (-off
                <= other || -off <= -other)
            &&& x > 0 ==> s <= 0x7f80_0000
            &&& x < 0 ==> s >= 0x8000_0000
            &&& x == 0 && !(l == 0x8000_0000 && r == 0x8000_0000) ==> s == 0
        }),
{
    lemma_nothing_is_nearer(value(l) + value(r), q);
}

/// Half of a pattern is half of its value exactly, except that below 2 to the power of 24 an odd
/// pattern, which has none, gives the even one of its two neighbours.
#[verifier::spinoff_prover]
pub proof fn lemma_half_is_half(m: int)
    requires
        0 <= m < 0x7f80_0000,
    ensures
        m >= 0x100_0000 || m % 2 == 0 ==> 2 * crate::rounding::scaled(half_pattern(m))
            == crate::rounding::scaled(m),
        m < 0x100_0000 ==> crate::rounding::scaled(m) == m && crate::rounding::scaled(
            half_pattern(m),
        ) == half_pattern(m),
        m < 0x100_0000 && m % 2 == 1 ==> half_pattern(m) % 2 == 0 && (2 * half_pattern(m) == m - 1
            || 2 * half_pattern(m) == m + 1),
        0 <= half_pattern(m) <= m,
{
    lemma2_to64();
    lemma_parts(m);
    lemma_parts(half_pattern(m));
    if m >= 0x100_0000 {
        let n = STEPS as int;
        let e = m / n;
        let f = m % n + n;
        assert(e >= 2 && n <= f < 2 * n && m - n == (e - 1) * n + (f - n)) by (nonlinear_arith)
            requires
                n == 0x80_0000,
                m >= 2 * n,
                e == m / n,
                f == m % n + n,
        ;
        lemma_scaled_of(e - 1, f);
        lemma_pow2_adds(1, (e - 2) as nat);
        let p = vstd::arithmetic::power2::pow2((e - 2) as nat) as int;
        assert(2 * (f * p) == f * (2 * p)) by (nonlinear_arith);
    } else {
        lemma_small_steps(m);
        lemma_small_steps(half_pattern(m));
    }
}

/// The mean lies in the middle: twice its value is the sample that is nearest to the sum of the
/// values, or, among the smallest samples, off that sum by one step at most. Without a finite
/// sum it is infinite. It does not matter which sample comes first.
#[verifier::spinoff_prover]
pub proof fn lemma_the_mean_is_in_the_middle(l: Sample, r: Sample, q: Sample)
    requires
        l < 0x7f80_0000 || 0x8000_0000 <= l < 0xff80_0000,
        r < 0x7f80_0000 || 0x8000_0000 <= r < 0xff80_0000,
        q < 0x7f80_0000 || 0x8000_0000 <= q < 0xff80_0000,
    ensures
        mean_of(l, r) == mean_of(r, l),
        0 <= mean_of(l, r) <= 0xff80_0000,
        ({
            let m = mean_of(l, r);
            let x = value(l) + value(r);
            let off = 2 * value(m as Sample) - x;
            let other = value(q) - x;
            &&& 0x80_0000 < m < 0x7f80_0000 || 0x8080_0000 < m < 0xff80_0000 ==> (off <= other
                || off <= -other) && (-off <= other || -off <= -other)
            &&& m <= 0x80_0000 || 0x8000_0000 <= m <= 0x8080_0000 ==> -1 <= off <= 1
            &&& x > 0 ==> m <= 0x7f80_0000
            &&& x < 0 ==> m >= 0x8000_0000
        }),
{
    let x = value(l) + value(r);
    let s = sum(l, r);
    lemma_nothing_is_nearer_to_a_sum(l, r, q);
    let a = if s < SIGN {
        s
    } else {
        s - SIGN
    };
    if a < INFINITY {
        lemma_half_is_half(a);
        if a <= 0x100_0000 {
            // Up to two to the power of 24 every whole number has a pattern, so the sum is exact,
            // or one step from the last of them.
            let y = if x < 0 {
                -x
            } else {
                x
            };
            if y > 0 {
                crate::rounding::lemma_there_is_a_nearest(y);
                assert(a == crate::rounding::rounded(y));
                lemma_small_steps(a - 1);
                if a < 0x100_0000 {
                    lemma_small_steps(a);
                    assert(y == a);
                } else {
                    lemma2_to64();
                    crate::rounding::lemma_patterns_have_values(2, 1);
                    assert(crate::rounding::scaled(a + 1) == 0x100_0002);
                    assert(a - 1 <= y <= a + 1);
                }
            }
        }
    }
}

/// Patterns up to 2 to the power of 24 stand for themselves.
proof fn lemma_small_steps(m: int)
    requires
        0 <= m < 0x100_0000,
    ensures
        crate::rounding::scaled(m) == m,
        crate::rounding::scaled(m + 1) == m + 1,
{
    lemma2_to64();
    if m >= STEPS {
        assert(m / STEPS as int == 1);
        assert(m % STEPS as int + STEPS == m);
        assert(crate::rounding::scaled(m) == m * 1);
    }
    if m + 1 >= 0x100_0000 {
        assert((m + 1) / STEPS as int == 2);
        assert((m + 1) % STEPS as int == 0);
    } else if m + 1 >= STEPS {
        assert((m + 1) / STEPS as int == 1);
        assert((m + 1) % STEPS as int + STEPS == m + 1);
        assert(crate::rounding::scaled(m + 1) == (m + 1) * 1);
    }
}

/// The mean of a sample and itself is that sample, as long as twice its value is finite.
pub proof fn lemma_the_mean_of_equals_is_the_same(s: Sample)
    requires
        s < 0x7f00_0000 || 0x8000_0000 <= s < 0xff00_0000,
    ensures
        mean_of(s, s) == s,
{
    lemma2_to64();
    let m = if s < SIGN {
        s as int
    } else {
        s - SIGN
    };
    if m >= STEPS {
        let n = STEPS as int;
        let e = m / n;
        let f = m % n + n;
        assert(e >= 1 && n <= f < 2 * n && m == e * n + (f - n) && m + n == (e + 1) * n + (f - n))
            by (nonlinear_arith)
            requires
                n == 0x80_0000,
                m >= n,
                e == m / n,
                f == m % n + n,
        ;
        lemma_scaled_of(e, f);
        lemma_scaled_of(e + 1, f);
        lemma_pow2_adds(1, (e - 1) as nat);
        let p = vstd::arithmetic::power2::pow2((e - 1) as nat) as int;
        assert(2 * (f * p) == f * (2 * p)) by (nonlinear_arith);
        crate::rounding::lemma_own_pattern_is_nearest(m + n);
    } else if m > 0 {
        lemma_small_steps(2 * m);
        crate::rounding::lemma_own_pattern_is_nearest(2 * m);
    }
}

/// What is no number or has no limit: the mean with a NaN, or of the two infinities, is a NaN,
/// and an infinity stays what it is beside anything else.
pub proof fn lemma_the_mean_of_the_rest(l: Sample, r: Sample)
    ensures
        0x7f80_0000 < l < 0x8000_0000 || 0xff80_0000 < l || 0x7f80_0000 < r < 0x8000_0000
            || 0xff80_0000 < r ==> mean_of(l, r) == 0x7fc0_0000,
        mean_of(0x7f80_0000, 0xff80_0000) == 0x7fc0_0000,
        mean_of(0xff80_0000, 0x7f80_0000) == 0x7fc0_0000,
        l == 0x7f80_0000 && (r <= 0x7f80_0000 || 0x8000_0000 <= r < 0xff80_0000) ==> mean_of(l, r)
            == l && mean_of(r, l) == l,
        l == 0xff80_0000 && (r < 0x7f80_0000 || 0x8000_0000 <= r <= 0xff80_0000) ==> mean_of(l, r)
            == l && mean_of(r, l) == l,
{
}

/// Neighbouring patterns up to that of 32767 are 2 to the power of -9 apart at most.
proof fn lemma_steps_below_full_scale(r: int)
    requires
        0 <= r <= FULL_SCALE,
    ensures
        crate::rounding::scaled(r + 1) - crate::rounding::scaled(r)
            <= vstd::arithmetic::power2::pow2(140),
{
    lemma2_to64();
    lemma_pow2_pos(140);
    let n = STEPS as int;
    if r < n {
        lemma_small_steps(r);
    } else {
        let e = r / n;
        let f = r % n + n;
        assert(1 <= e <= 141 && n <= f < 2 * n && r == e * n + (f - n)) by (nonlinear_arith)
            requires
                n == 0x80_0000,
                n <= r <= 0x46ff_fe00,
                e == r / n,
                f == r % n + n,
        ;
        let p = vstd::arithmetic::power2::pow2((e - 1) as nat) as int;
        lemma_scaled_of(e, f);
        if f + 1 < 2 * n {
            lemma_scaled_of(e, f + 1);
            assert((f + 1) * p == f * p + p) by (nonlinear_arith);
        } else {
            lemma_scaled_of(e + 1, n);
            lemma_pow2_adds(1, (e - 1) as nat);
            assert((e + 1) * n + (n - n) == r + 1) by (nonlinear_arith)
                requires
                    r == e * n + (f - n),
                    f == 2 * n - 1,
            ;
            assert(n * (2 * p) == f * p + p) by (nonlinear_arith)
                requires
                    f == 2 * n - 1,
            ;
        }
        if e < 141 {
            lemma_pow2_strictly_increases((e - 1) as nat, 140);
        }
    }
}

/// A sample within -1 and 1 becomes 32767 times its value, cut off towards zero, up to the
/// rounding of that product, which is 2 to the power of -10 at most. The sign stays. A sample
/// beyond becomes 32767 or its negative, and a NaN becomes 0.
#[verifier::spinoff_prover]
pub proof fn lemma_shorts_are_products(s: Sample)
    ensures
        ({
            let v = quantized(s);
            let unit = vstd::arithmetic::power2::pow2(149) as int;
            let slack = vstd::arithmetic::power2::pow2(139) as int;
            &&& s <= 0x3f80_0000 ==> 0 <= v && v * unit <= value(s) * 32_767 + slack && value(s)
                * 32_767 - slack < (v + 1) * unit
            &&& 0x8000_0000 <= s <= 0xbf80_0000 ==> v <= 0 && -v * unit <= -value(s) * 32_767
                + slack && -value(s) * 32_767 - slack < (1 - v) * unit
            &&& 0x3f80_0000 <= s <= 0x7f80_0000 ==> v == 32_767
            &&& 0xbf80_0000 <= s <= 0xff80_0000 ==> v == -32_767
            &&& 0x7f80_0000 < s < 0x8000_0000 || 0xff80_0000 < s ==> v == 0
        }),
{
    let unit = vstd::arithmetic::power2::pow2(149) as int;
    let slack = vstd::arithmetic::power2::pow2(139) as int;
    lemma_pow2_pos(149);
    lemma_pow2_pos(139);
    lemma_pow2_adds(1, 139);
    lemma2_to64();
    lemma_full_scale();
    let a = crate::sample::magnitude(s);
    let m = if a > ONE {
        ONE as int
    } else {
        a
    };
    let x = crate::rounding::scaled(m) * 32_767;
    let product = bounded_pattern(x);
    if m > 0 {
        lemma_scaled_grows(0, m);
        if m < ONE {
            lemma_scaled_grows(m, ONE as int);
        }
        assert(0 < x <= 32_767 * unit);
        crate::rounding::lemma_there_is_a_nearest(x);
        let r = crate::rounding::rounded(x);
        lemma_nearest_keeps_order(x, 32_767 * unit, r, FULL_SCALE as int);
        assert(product == r);
        lemma_steps_below_full_scale(r);
        lemma_steps_below_full_scale(r - 1);
        if m == ONE {
            lemma_nearest_is_unique(x, r, FULL_SCALE as int);
        }
    }
    let top = crate::rounding::scaled(product);
    let whole = top / unit;
    assert(x - slack <= top <= x + slack);
    assert(top >= 0) by {
        if product > 0 {
            lemma_scaled_grows(0, product);
        }
    }
    assert(0 <= whole && whole * unit <= top < (whole + 1) * unit) by (nonlinear_arith)
        requires
            whole == top / unit,
            top >= 0,
            unit > 0,
    ;
    if a >= ONE {
        assert((32_767 * unit) / unit == 32_767) by (nonlinear_arith)
            requires
                unit > 0,
        ;
    }
}

/// Of numbers with 24 binary digits at most every one has a pattern.
proof fn lemma_whole_units_have_patterns(d: int, unit: int)
    requires
        0 < d < 0x100_0000,
        1 <= unit <= 160,
        d * vstd::arithmetic::power2::pow2((unit - 1) as nat) >= 0x80_0000,
    ensures
        exists|m: int|
            0 < m < 0x7f80_0000 && #[trigger] crate::rounding::scaled(m) == d
                * vstd::arithmetic::power2::pow2((unit - 1) as nat),
    decreases unit,
{
    lemma2_to64();
    if d >= 0x80_0000 {
        lemma_scaled_of(unit, d);
        let m = unit * STEPS + (d - STEPS);
        assert(0 < m < 0x7f80_0000);
        assert(crate::rounding::scaled(m) == d * vstd::arithmetic::power2::pow2(
            (unit - 1) as nat,
        ));
    } else {
        if unit == 1 {
            assert(d * 1 == d);
        }
        let p = vstd::arithmetic::power2::pow2((unit - 2) as nat) as int;
        lemma_pow2_adds(1, (unit - 2) as nat);
        assert(d * (2 * p) == (2 * d) * p) by (nonlinear_arith);
        lemma_whole_units_have_patterns(2 * d, unit - 1);
    }
}

/// Integers of 16 bits, and of up to 24, become 32768 times smaller exactly.
pub proof fn lemma_short_integers_are_exact(v: int)
    requires
        -0x100_0000 < v < 0x100_0000,
    ensures
        value(nearest_sample(v * vstd::arithmetic::power2::pow2(134)) as Sample) == v
            * vstd::arithmetic::power2::pow2(134),
{
    let p = vstd::arithmetic::power2::pow2(134) as int;
    lemma2_to64();
    lemma_pow2_strictly_increases(23, 134);
    let d = if v < 0 {
        -v
    } else {
        v
    };
    assert(v < 0 ==> v * p == -(d * p)) by (nonlinear_arith)
        requires
            v < 0 ==> v == -d,
    ;
    assert(v == 0 ==> v * p == 0) by (nonlinear_arith);
    if d > 0 {
        assert(d * p >= p) by (nonlinear_arith)
            requires
                d >= 1,
                p > 0,
        ;
        lemma_whole_units_have_patterns(d, 135);
        let m = choose|m: int|
            0 < m < 0x7f80_0000 && #[trigger] crate::rounding::scaled(m) == d
                * vstd::arithmetic::power2::pow2(134);
        crate::rounding::lemma_own_pattern_is_nearest(m);
        assert(bounded_pattern(d * p) == m);
    }
}

/// No sample becomes more than 32767 or less than its negative.
pub proof fn lemma_shorts_are_bounded(s: Sample)
    ensures
        -32_767 <= quantized(s) <= 32_767,
{
    lemma_shorts_are_products(s);
    lemma_full_scale();
    lemma_pow2_pos(149);
    lemma_pow2_adds(10, 139);
    lemma2_to64();
    let unit = vstd::arithmetic::power2::pow2(149) as int;
    let slack = vstd::arithmetic::power2::pow2(139) as int;
    lemma_pow2_pos(139);
    let m = crate::sample::magnitude(s);
    if m <= ONE {
        if m < ONE {
            lemma_scaled_grows(m, ONE as int);
        }
        let v = if s < SIGN {
            quantized(s)
        } else {
            -quantized(s)
        };
        let x = crate::rounding::scaled(m) * 32_767;
        assert(v <= 32_767) by (nonlinear_arith)
            requires
                v * unit <= x + slack,
                x <= unit * 32_767,
                slack * 1024 == unit,
                slack > 0,
        ;
    }
}

} // verus!
