//! Rounding to binary32: which bit pattern is nearest to a number.

use crate::sample::{Sample, INFINITY, SIGN};
use vstd::arithmetic::power2::{lemma2_to64, lemma_pow2_adds, lemma_pow2_pos};
use vstd::prelude::*;

verus! {

/// 2 to the power of 23: patterns per power of two.
pub const STEPS: u32 = 0x80_0000;

/// The value of a finite pattern without sign, times 2 to the power of 149.
pub open spec fn scaled(s: int) -> int {
    if s < STEPS {
        s
    } else {
        (s % STEPS as int + STEPS) * vstd::arithmetic::power2::pow2((s / STEPS as int - 1) as nat)
    }
}

/// Whether `r` is the pattern whose value is nearest to `x` times 2 to the power of -149:
/// `x` lies between the midpoints to both neighbours of `r`, and on one of them only where
/// `r` is even.
pub open spec fn nearest(x: int, r: int) -> bool {
    &&& scaled(r - 1) + scaled(r) <= 2 * x <= scaled(r) + scaled(r + 1)
    &&& (2 * x == scaled(r - 1) + scaled(r) || 2 * x == scaled(r) + scaled(r + 1)) ==> r % 2 == 0
}

/// The pattern nearest to `x` times 2 to the power of -149.
pub open spec fn rounded(x: int) -> int {
    choose|r: int| 0 < r && nearest(x, r)
}

pub proof fn lemma_scaled_step(s: int)
    requires
        0 <= s,
    ensures
        scaled(s) < scaled(s + 1),
{
    let n = STEPS as int;
    if s + 1 < n {
    } else if s + 1 == n {
        lemma2_to64();
        assert((s + 1) % n == 0 && (s + 1) / n == 1) by (nonlinear_arith)
            requires
                s + 1 == n,
                n > 0,
        ;
        assert(scaled(s + 1) == n * vstd::arithmetic::power2::pow2(0));
    } else {
        let e = s / n;
        let m = s % n;
        lemma_pow2_pos((e - 1) as nat);
        let p = vstd::arithmetic::power2::pow2((e - 1) as nat) as int;
        assert(s == e * n + m && 0 <= m < n && e >= 1) by (nonlinear_arith)
            requires
                e == s / n,
                m == s % n,
                s >= n,
                n > 0,
        ;
        if m + 1 < n {
            assert((s + 1) / n == e && (s + 1) % n == m + 1) by (nonlinear_arith)
                requires
                    s + 1 == e * n + (m + 1),
                    0 <= m + 1 < n,
            ;
            assert(scaled(s) == (m + n) * p);
            assert(scaled(s + 1) == (m + 1 + n) * p);
            assert((m + n) * p < (m + 1 + n) * p) by (nonlinear_arith)
                requires
                    p > 0,
            ;
        } else {
            assert((s + 1) / n == e + 1 && (s + 1) % n == 0) by (nonlinear_arith)
                requires
                    s + 1 == (e + 1) * n,
                    n > 0,
            ;
            lemma_pow2_adds((e - 1) as nat, 1);
            lemma2_to64();
            let p2 = vstd::arithmetic::power2::pow2(e as nat) as int;
            assert(p2 == p * 2);
            assert(scaled(s + 1) == n * p2);
            assert((m + n) * p < n * p2) by (nonlinear_arith)
                requires
                    p > 0,
                    p2 == p * 2,
                    m + 1 == n,
            ;
        }
    }
}

pub proof fn lemma_scaled_grows(a: int, b: int)
    requires
        0 <= a < b,
    ensures
        scaled(a) < scaled(b),
    decreases b - a,
{
    lemma_scaled_step(b - 1);
    if a < b - 1 {
        lemma_scaled_grows(a, b - 1);
    }
}

/// There is one nearest pattern at most.
pub proof fn lemma_nearest_is_unique(x: int, a: int, b: int)
    requires
        0 < a,
        0 < b,
        nearest(x, a),
        nearest(x, b),
    ensures
        a == b,
{
    if a < b {
        lemma_nearest_of_two(x, a, b);
    } else if b < a {
        lemma_nearest_of_two(x, b, a);
    }
}

proof fn lemma_nearest_of_two(x: int, a: int, b: int)
    requires
        0 < a < b,
    ensures
        !(nearest(x, a) && nearest(x, b)),
{
    lemma_scaled_grows(a, b);
    if a + 1 < b {
        lemma_scaled_grows(a, b - 1);
        lemma_scaled_grows(a + 1, b);
    }
}

/// Rounding keeps the order.
pub proof fn lemma_nearest_keeps_order(x: int, y: int, a: int, b: int)
    requires
        x <= y,
        0 < a,
        0 < b,
        nearest(x, a),
        nearest(y, b),
    ensures
        a <= b,
{
    if b < a {
        if b + 1 < a {
            lemma_scaled_grows(b, a - 1);
            lemma_scaled_grows(b + 1, a);
        }
        assert(x == y);
        lemma_nearest_is_unique(x, a, b);
    }
}

/// No pattern is nearer to `x` than its nearest pattern.
pub proof fn lemma_nearest_is_nearest(x: int, r: int, other: int)
    requires
        0 < r,
        0 <= other,
        nearest(x, r),
    ensures
        scaled(r) - x <= scaled(other) - x || scaled(r) - x <= x - scaled(other),
        x - scaled(r) <= scaled(other) - x || x - scaled(r) <= x - scaled(other),
{
    if other < r {
        if other < r - 1 {
            lemma_scaled_grows(other, r - 1);
        }
        lemma_scaled_step(r - 1);
    } else if other > r {
        if other > r + 1 {
            lemma_scaled_grows(r + 1, other);
        }
        lemma_scaled_step(r);
    }
}

/// The exponent and the mantissa of a pattern that is no subnormal.
pub proof fn lemma_scaled_of(e: int, m: int)
    requires
        1 <= e,
        STEPS <= m < 2 * STEPS,
    ensures
        scaled(e * STEPS + (m - STEPS)) == m * vstd::arithmetic::power2::pow2((e - 1) as nat),
        e * STEPS + (m - STEPS) >= STEPS,
{
    let n = STEPS as int;
    let s = e * n + (m - n);
    assert(s / n == e && s % n == m - n && s >= n) by (nonlinear_arith)
        requires
            s == e * n + (m - n),
            0 <= m - n < n,
            e >= 1,
            n > 0,
    ;
}

/// The pattern nearest to `d` times 2 to the power of `unit - 150`: exact where `d` has at
/// most 24 binary digits, rounded where it has more. The patterns go on past the largest
/// finite value, so the result may lie at or above that of infinity.
pub fn nearest_pattern(d: u64, unit: u32) -> (r: Sample)
    requires
        0 < d < 0x40_0000_0000_0000,
        1 <= unit <= 254,
    ensures
        0 < r,
        unit <= 160 ==> r < INFINITY,
        nearest(d * vstd::arithmetic::power2::pow2((unit - 1) as nat), r as int),
        d < 0x100_0000 ==> scaled(r as int) == d * vstd::arithmetic::power2::pow2(
            (unit - 1) as nat,
        ),
{
    let ghost p = vstd::arithmetic::power2::pow2((unit - 1) as nat) as int;
    if d < 0x100_0000 {
        let mut m: u64 = d;
        let mut e: u32 = unit;
        let ghost mut down: nat = 0;
        proof {
            lemma2_to64();
        }
        while m < 0x80_0000 && e > 1
            invariant
                0 < m < 0x100_0000,
                1 <= unit <= 254,
                1 <= e <= unit,
                e == unit - down,
                m == d * vstd::arithmetic::power2::pow2(down),
                d >= 1,
                down <= 23,
                vstd::arithmetic::power2::pow2(23) == 0x80_0000,
            decreases 0x100_0000 - m,
        {
            proof {
                lemma_pow2_adds(down, 1);
                lemma2_to64();
                if down == 23 {
                    assert(d * 0x80_0000 >= 0x80_0000);
                }
                let a = d as int;
                let b = vstd::arithmetic::power2::pow2(down) as int;
                assert(a * b * 2 == a * (b * 2)) by (nonlinear_arith);
            }
            m = m * 2;
            e = e - 1;
            proof {
                down = down + 1;
            }
        }
        let r: u32 = if m < 0x80_0000 {
            m as u32
        } else {
            e * 0x80_0000 + (m as u32 - 0x80_0000)
        };
        proof {
            if m >= STEPS {
                lemma_scaled_of(e as int, m as int);
            } else {
                assert(vstd::arithmetic::power2::pow2(0) == 1);
            }
            lemma_pow2_adds(down, (e - 1) as nat);
            let a = d as int;
            let b = vstd::arithmetic::power2::pow2(down) as int;
            let c = vstd::arithmetic::power2::pow2((e - 1) as nat) as int;
            assert(a * b * c == a * (b * c)) by (nonlinear_arith);
            lemma_scaled_step(r - 1);
            lemma_scaled_step(r as int);
        }
        r
    } else {
        let mut q: u64 = d;
        let mut e: u32 = unit;
        let mut place: u64 = 1;
        let ghost mut up: nat = 0;
        proof {
            lemma2_to64();
            assert(d as int / 1 == d);
        }
        while q >= 0x100_0000
            invariant
                0x80_0000 <= q <= d,
                d < 0x40_0000_0000_0000,
                1 <= unit <= 254,
                e == unit + up,
                up <= 30,
                place == vstd::arithmetic::power2::pow2(up),
                q == d as int / place as int,
                0 < place <= 0x4000_0000,
                vstd::arithmetic::power2::pow2(30) == 0x4000_0000,
            decreases q,
        {
            proof {
                lemma_pow2_adds(up, 1);
                lemma2_to64();
                if up == 30 {
                    assert(d as int / 0x4000_0000 < 0x100_0000);
                }
                let a = d as int;
                let u = place as int;
                assert((a / u) / 2 == a / (u * 2)) by (nonlinear_arith)
                    requires
                        a >= 0,
                        u > 0,
                ;
                if up < 30 {
                    vstd::arithmetic::power2::lemma_pow2_strictly_increases(up, 30);
                }
            }
            q = q / 2;
            place = place * 2;
            e = e + 1;
            proof {
                up = up + 1;
            }
        }
        let rem: u64 = d % place;
        let r0: u32 = e * 0x80_0000 + (q as u32 - 0x80_0000);
        proof {
            lemma_scaled_of(e as int, q as int);
            lemma_pow2_adds(up, (unit - 1) as nat);
            lemma_pow2_pos((unit - 1) as nat);
            let w = vstd::arithmetic::power2::pow2((e - 1) as nat) as int;
            let u = place as int;
            assert(w == u * p);
            if q + 1 < 2 * STEPS {
                lemma_scaled_of(e as int, q + 1);
            } else {
                lemma_scaled_of(e + 1, STEPS as int);
                lemma_pow2_adds((e - 1) as nat, 1);
                lemma2_to64();
                let w2 = vstd::arithmetic::power2::pow2(e as nat) as int;
                assert(w2 == w * 2);
                assert(scaled(r0 + 1) == STEPS * w2);
                assert(STEPS * w2 == (2 * STEPS) * w) by (nonlinear_arith)
                    requires
                        w2 == w * 2,
                ;
            }
            assert(scaled(r0 as int) == q * w);
            assert(scaled(r0 + 1) == (q + 1) * w);
            let a = d as int;
            let x = a * p;
            let qi = q as int;
            let ri = rem as int;
            assert(a == qi * u + ri && 0 <= ri < u) by (nonlinear_arith)
                requires
                    qi == a / u,
                    ri == a % u,
                    u > 0,
                    a >= 0,
            ;
            assert(x == qi * w + ri * p) by (nonlinear_arith)
                requires
                    x == a * p,
                    a == qi * u + ri,
                    w == u * p,
            ;
            assert((qi + 1) * w == qi * w + w) by (nonlinear_arith);
            assert(0 <= ri * p < w) by (nonlinear_arith)
                requires
                    0 <= ri < u,
                    w == u * p,
                    p > 0,
            ;
            assert(2 * ri < u ==> 2 * (ri * p) < w) by (nonlinear_arith)
                requires
                    w == u * p,
                    p > 0,
            ;
            assert(2 * ri > u ==> 2 * (ri * p) > w) by (nonlinear_arith)
                requires
                    w == u * p,
                    p > 0,
            ;
            assert(2 * ri == u ==> 2 * (ri * p) == w) by (nonlinear_arith)
                requires
                    w == u * p,
                    p > 0,
            ;
            lemma_scaled_step(r0 - 1);
            lemma_scaled_step(r0 as int);
            lemma_scaled_step(r0 + 1);
        }
        if 2 * rem > place || (2 * rem == place && r0 % 2 == 1) {
            r0 + 1
        } else {
            r0
        }
    }
}

/// A pattern below 2 to the power of 23 stands for itself, and any other one for its last 23
/// binary digits with one more before them, times the power of two that its first digits give.
pub proof fn lemma_patterns_have_values(e: int, f: int)
    requires
        0 <= f < 0x80_0000,
        1 <= e,
    ensures
        scaled(f) == f,
        scaled(e * 0x80_0000 + f) == (0x80_0000 + f) * vstd::arithmetic::power2::pow2(
            (e - 1) as nat,
        ),
{
    lemma_scaled_of(e, f + 0x80_0000);
    assert(e * STEPS + (f + 0x80_0000 - STEPS) == e * 0x80_0000 + f);
}

proof fn lemma_nearest_from(x: int, r: int)
    requires
        0 < r,
        2 * x > scaled(r - 1) + scaled(r) || (2 * x == scaled(r - 1) + scaled(r) && r % 2 == 0),
    ensures
        exists|q: int| 0 < q && nearest(x, q),
    decreases 2 * x - scaled(r - 1) - scaled(r),
{
    lemma_scaled_step(r - 1);
    lemma_scaled_step(r);
    let up = scaled(r) + scaled(r + 1);
    if 2 * x < up || (2 * x == up && r % 2 == 0) {
        assert(0 < r && nearest(x, r));
    } else {
        lemma_nearest_from(x, r + 1);
    }
}

/// Every positive number has a nearest pattern.
pub proof fn lemma_there_is_a_nearest(x: int)
    requires
        x > 0,
    ensures
        rounded(x) > 0,
        nearest(x, rounded(x)),
{
    lemma_nearest_from(x, 1);
}

/// A pattern is the nearest one to its own value.
pub proof fn lemma_own_pattern_is_nearest(m: int)
    requires
        m > 0,
    ensures
        rounded(scaled(m)) == m,
        scaled(m) > 0,
{
    lemma_scaled_step(m - 1);
    lemma_scaled_step(m);
    lemma_scaled_grows(0, m);
    assert(nearest(scaled(m), m));
    lemma_there_is_a_nearest(scaled(m));
    lemma_nearest_is_unique(scaled(m), rounded(scaled(m)), m);
}

} // verus!
