//! The silence threshold that follows from the speech threshold: 0.15 below it, but at least
//! 0.01, in binary32 arithmetic with rounding to nearest, ties to even.

use crate::rounding::{lemma_nearest_is_unique, lemma_scaled_grows, lemma_scaled_of, lemma_scaled_step, nearest_pattern, STEPS};
use crate::sample::{below, nan, Sample, INFINITY};
use vstd::arithmetic::power2::{lemma2_to64, lemma_pow2_adds, lemma_pow2_pos};
use vstd::prelude::*;

verus! {

/// Bit pattern of `0.15`: by how much the silence threshold is lower.
pub const MARGIN: Sample = 0x3e19_999a;

/// Bit pattern of `0.01`: the lowest silence threshold.
pub const FLOOR: Sample = 0x3c23_d70a;

/// The threshold minus 0.15, where that is not negative.
pub open spec fn lowered(t: Sample) -> int {
    if t == INFINITY {
        INFINITY as int
    } else if t == MARGIN {
        0
    } else {
        crate::rounding::rounded(crate::rounding::scaled(t as int) - crate::rounding::scaled(MARGIN as int))
    }
}

/// The larger of the threshold minus 0.15 and 0.01; 0.01 where the threshold is a NaN.
pub open spec fn default_neg_threshold(t: Sample) -> Sample {
    if crate::sample::is_nan(t) || crate::sample::rank(t) < crate::sample::rank(MARGIN)
        || lowered(t) < FLOOR {
        FLOOR
    } else {
        lowered(t) as Sample
    }
}

/// The threshold minus 0.15, where that is not negative.
fn lower(t: Sample) -> (r: Sample)
    requires
        MARGIN <= t <= INFINITY,
    ensures
        r == lowered(t),
{
    if t == INFINITY {
        return INFINITY;
    }
    if t == MARGIN {
        return 0;
    }
    let e: u32 = t / 0x80_0000;
    let m: u64 = (t % 0x80_0000 + 0x80_0000) as u64;
    let k: u32 = e - 124;
    let ghost x = crate::rounding::scaled(t as int) - crate::rounding::scaled(MARGIN as int);
    proof {
        assert(MARGIN as int == 124 * STEPS + (0x99_999a - STEPS));
        lemma_scaled_of(124, 0x99_999a);
        assert(t as int == e * STEPS + (m - STEPS));
        lemma_scaled_of(e as int, m as int);
    }
    let r: Sample = if k < 30 {
        let mut units: u64 = m;
        let mut i: u32 = 0;
        proof {
            lemma2_to64();
        }
        while i < k
            invariant
                i <= k < 30,
                m < 0x100_0000,
                units == m * vstd::arithmetic::power2::pow2(i as nat),
                units <= 0xff_ffff * vstd::arithmetic::power2::pow2(i as nat),
                vstd::arithmetic::power2::pow2(30) == 0x4000_0000,
            decreases k - i,
        {
            proof {
                lemma_pow2_adds(i as nat, 1);
                lemma2_to64();
                vstd::arithmetic::power2::lemma_pow2_strictly_increases(i as nat, 30);
                let a = m as int;
                let b = vstd::arithmetic::power2::pow2(i as nat) as int;
                assert(a * b * 2 == a * (b * 2)) by (nonlinear_arith);
            }
            units = units * 2;
            i = i + 1;
        }
        proof {
            vstd::arithmetic::power2::lemma_pow2_strictly_increases(k as nat, 30);
            lemma_pow2_adds(k as nat, 123);
            lemma_pow2_pos(123);
            let a = m as int;
            let b = vstd::arithmetic::power2::pow2(k as nat) as int;
            let c = vstd::arithmetic::power2::pow2(123) as int;
            assert(a * b * c == a * (b * c)) by (nonlinear_arith);
            assert((a * b - 0x99_999a) * c == a * b * c - 0x99_999a * c) by (nonlinear_arith);
            lemma_scaled_grows(MARGIN as int, t as int);
            assert(a * b > 0x99_999a) by (nonlinear_arith)
                requires
                    a * b * c > 0x99_999a * c,
                    c > 0,
            ;
        }
        nearest_pattern(units - 0x99_999a, 124)
    } else {
        proof {
            lemma_far_above(t, e as int, m as int);
        }
        t
    };
    proof {
        assert(0 < r as int && crate::rounding::nearest(x, r as int));
        lemma_nearest_is_unique(x, r as int, crate::rounding::rounded(x));
    }
    r
}

/// From 2 to the power of 27 on, 0.15 is less than half the distance to the next pattern.
proof fn lemma_far_above(t: Sample, e: int, m: int)
    requires
        t == e * STEPS + (m - STEPS),
        STEPS <= m < 2 * STEPS,
        e >= 154,
    ensures
        crate::rounding::nearest(crate::rounding::scaled(t as int) - crate::rounding::scaled(MARGIN as int), t as int),
{
    assert(MARGIN as int == 124 * STEPS + (0x99_999a - STEPS));
    lemma_scaled_of(124, 0x99_999a);
    lemma_scaled_of(e, m);
    let w = vstd::arithmetic::power2::pow2((e - 1) as nat) as int;
    let c = vstd::arithmetic::power2::pow2(123) as int;
    lemma_pow2_pos(123);
    let h = vstd::arithmetic::power2::pow2((e - 2) as nat) as int;
    lemma_pow2_adds((e - 2) as nat, 1);
    lemma_pow2_adds(123, (e - 125) as nat);
    lemma2_to64();
    let g = vstd::arithmetic::power2::pow2((e - 125) as nat) as int;
    if e - 125 > 29 {
        vstd::arithmetic::power2::lemma_pow2_strictly_increases(29, (e - 125) as nat);
    }
    assert(h == c * g && g >= 0x2000_0000);
    assert(2 * (0x99_999a * c) < h) by (nonlinear_arith)
        requires
            h == c * g,
            g >= 0x2000_0000,
            c > 0,
    ;
    if m > STEPS {
        lemma_scaled_of(e, m - 1);
        assert(m * w - (m - 1) * w == w) by (nonlinear_arith);
    } else {
        lemma_scaled_of(e - 1, 2 * STEPS - 1);
        assert(m * w - (2 * m - 1) * h == h) by (nonlinear_arith)
            requires
                w == 2 * h,
        ;
    }
    lemma_scaled_step(t as int);
}

/// The silence threshold that follows from the speech threshold `t`.
pub fn derive_neg_threshold(t: Sample) -> (n: Sample)
    ensures
        n == default_neg_threshold(t),
{
    if nan(t) || below(t, MARGIN) {
        FLOOR
    } else {
        let lower_value: Sample = lower(t);
        if lower_value < FLOOR {
            FLOOR
        } else {
            lower_value
        }
    }
}

/// The silence threshold is never below that of 0.01, and it is that one for every threshold
/// below 0.15 and for a NaN. Above, it is the sample nearest to the threshold minus 0.15,
/// where that is not less than 0.01.
pub proof fn lemma_silence_is_below_speech(t: Sample, q: int)
    requires
        0 <= q,
    ensures
        ({
            let r = default_neg_threshold(t);
            let x = crate::rounding::scaled(t as int) - crate::rounding::scaled(0x3e19_999a);
            let off = crate::rounding::scaled(r as int) - x;
            let other = crate::rounding::scaled(q) - x;
            &&& 0x3c23_d70a <= r <= 0x7f80_0000
            &&& t <= 0x3e19_999a || t > 0x7f80_0000 ==> r == 0x3c23_d70a
            &&& 0x3e19_999a < t < 0x7f80_0000 && r > 0x3c23_d70a ==> (off <= other || off
                <= -other) && (-off <= other || -off <= -other)
            &&& 0x3e19_999a < t < 0x7f80_0000 && r == 0x3c23_d70a ==> 2 * x
                <= crate::rounding::scaled(0x3c23_d70a) + crate::rounding::scaled(0x3c23_d70b)
            &&& 0x3e19_999a < t < 0x7f80_0000 ==> r <= t
            &&& t == 0x7f80_0000 ==> r == 0x7f80_0000
        }),
{
    if 0x3e19_999a < t < 0x7f80_0000 {
        let x = crate::rounding::scaled(t as int) - crate::rounding::scaled(0x3e19_999a);
        lemma_scaled_grows(0x3e19_999a, t as int);
        crate::rounding::lemma_there_is_a_nearest(x);
        let c = crate::rounding::rounded(x);
        crate::rounding::lemma_nearest_is_nearest(x, c, q);
        if c < 0x3c23_d70a {
            if c + 1 < 0x3c23_d70b {
                lemma_scaled_grows(c + 1, 0x3c23_d70b);
            }
            lemma_scaled_grows(c, 0x3c23_d70a);
        }
        lemma_scaled_grows(0, 0x3e19_999a);
        crate::rounding::lemma_own_pattern_is_nearest(t as int);
        crate::rounding::lemma_there_is_a_nearest(crate::rounding::scaled(t as int));
        crate::rounding::lemma_nearest_keeps_order(
            x,
            crate::rounding::scaled(t as int),
            c,
            t as int,
        );
    }
}

} // verus!
