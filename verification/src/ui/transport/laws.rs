//! How exact the times on display are.

use vstd::arithmetic::div_mod::{lemma_fundamental_div_mod, lemma_mod_bound};
use vstd::arithmetic::mul::{
    lemma_mul_inequality, lemma_mul_is_associative, lemma_mul_is_commutative,
    lemma_mul_is_distributive_add, lemma_mul_is_distributive_sub,
};
use vstd::prelude::*;

use crate::ui::transport::{
    excess, nearest_even, scaled, seconds_and_thousandths, shortened,
};

verus! {

/// Rounding to a whole number is off by half at most.
proof fn rounding_is_off_by_half(a: nat, b: nat)
    requires
        b > 0,
    ensures
        -(b as int) <= 2 * (nearest_even(a, b) * b - a) <= b,
{
    let q = a / b;
    lemma_fundamental_div_mod(a as int, b as int);
    lemma_mod_bound(a as int, b as int);
    lemma_mul_is_commutative(q as int, b as int);
    lemma_mul_is_distributive_add(b as int, q as int, 1);
    lemma_mul_is_commutative(q as int + 1, b as int);
}

/// Doubling numerator and unit keeps their ratio, and ends once there are enough
/// bits.
proof fn doubling_keeps_the_ratio(n: nat, unit: nat, d: nat)
    requires
        d > 0,
        unit > 0,
    ensures
        ({
            let (m, u) = scaled(n, unit, d);
            &&& m * unit == n * u
            &&& u >= unit
            &&& n > 0 ==> m >= 4_503_599_627_370_496 * d
        }),
    decreases excess((4_503_599_627_370_496 * d) as int, n as int),
{
    if n != 0 && n < 4_503_599_627_370_496 * d {
        doubling_keeps_the_ratio(2 * n, 2 * unit, d);
        let (m, u) = scaled(n, unit, d);
        lemma_mul_is_associative(m as int, 2, unit as int);
        lemma_mul_is_commutative(m as int, 2);
        lemma_mul_is_associative(2, m as int, unit as int);
        lemma_mul_is_associative(2, n as int, u as int);
    }
}

/// Rounding to 53 bits is off by half of a unit at most, and the unit is small
/// against the number.
proof fn shortening_is_off_by_little(n: nat, unit: nat) -> (last: nat)
    requires
        unit > 0,
    ensures
        last > 0,
        -(last as int) <= 2 * (shortened(n, unit) - n) <= last,
        last == unit || 4_503_599_627_370_496 * last <= n,
    decreases excess(n as int, unit as int),
{
    if n < 9_007_199_254_740_992 * unit {
        rounding_is_off_by_half(n, unit);
        unit
    } else {
        shortening_is_off_by_little(n, 2 * unit)
    }
}

/// A time on display is right to the thousandth: it is off by no more than one,
/// for every track that lasts less than a million million seconds.
pub proof fn times_are_right_to_the_thousandth(frames: nat, sample_rate: nat)
    requires
        0 < sample_rate,
        frames < 9_007_199_254_740_992,
        frames <= 1_099_511_627_776 * sample_rate,
    ensures
        ({
            let (total, ms) = seconds_and_thousandths(frames, sample_rate);
            let shown = (1000 * total + ms) * sample_rate;
            -(sample_rate as int) <= shown - 1000 * frames <= sample_rate
        }),
{
    let sr = sample_rate as int;
    lemma_fundamental_div_mod(frames as int, 1);
    assert(nearest_even(frames, 1) == frames);
    assert(shortened(frames, 1) == frames);
    doubling_keeps_the_ratio(frames, 1, sample_rate);
    let (n, unit) = scaled(frames, 1, sample_rate);
    let u = unit as int;
    let q = nearest_even(n, sample_rate);
    rounding_is_off_by_half(n, sample_rate);
    let total = q / unit;
    let rem = q % unit;
    lemma_fundamental_div_mod(q as int, u);
    lemma_mod_bound(q as int, u);
    lemma_mul_is_commutative(u, total as int);
    let part = (rem * 1000) as nat;
    let last = shortening_is_off_by_little(part, 1);
    let th = shortened(part, 1);
    let ms = (2 * th + unit) / (2 * unit);
    rounded_share(th, unit);
    if frames == 0 {
        assert(n == 0);
        assert(q == 0);
        assert(total == 0 && rem == 0);
        assert(part == 0 && last == 1);
        assert(th == 0 && ms * unit <= unit);
        assert(ms == 0) by {
            vstd::arithmetic::div_mod::lemma_basic_div(u, 2 * u);
        }
    } else {
        unit_is_large(frames as int, sr, u);
        let shown = 1000 * total + ms;
        lemma_mul_is_distributive_add(u, 1000 * total as int, ms as int);
        lemma_mul_is_associative(u, 1000, total as int);
        lemma_mul_is_commutative(u, 1000);
        lemma_mul_is_associative(1000, u, total as int);
        lemma_mul_is_commutative(u, total as int);
        lemma_mul_is_commutative(u, ms as int);
        // Seconds and thousandths against the rounded quotient.
        let off = u * shown - 1000 * q;
        assert(-3 * u <= 4 * off <= 3 * u);
        all_in_all(frames as int, sr, u, q as int, shown as int, off);
    }
}

proof fn rounded_share(th: nat, unit: nat)
    requires
        unit > 0,
    ensures
        ({
            let ms = (2 * th + unit) / (2 * unit);
            -(unit as int) <= 2 * (ms * unit - th) <= unit
        }),
{
    let a = (2 * th + unit) as int;
    let b = (2 * unit) as int;
    let ms = a / b;
    lemma_fundamental_div_mod(a, b);
    lemma_mod_bound(a, b);
    lemma_mul_is_associative(2, unit as int, ms);
    lemma_mul_is_commutative(unit as int, ms);
}

/// A unit that is needed for enough bits is large.
proof fn unit_is_large(frames: int, sr: int, u: int)
    requires
        0 < frames <= 1_099_511_627_776 * sr,
        0 < sr,
        0 < u,
        frames * u >= 4_503_599_627_370_496 * sr,
    ensures
        u >= 4096,
{
    if u < 4096 {
        lemma_mul_inequality(u, 4095, frames);
        lemma_mul_is_commutative(u, frames);
    }
}

proof fn all_in_all(frames: int, sr: int, u: int, q: int, shown: int, off: int)
    requires
        0 < sr,
        4096 <= u,
        0 <= q,
        -sr <= 2 * (q * sr - frames * u) <= sr,
        off == u * shown - 1000 * q,
        -3 * u <= 4 * off <= 3 * u,
    ensures
        -sr <= shown * sr - 1000 * frames <= sr,
{
    let gap = shown * sr - 1000 * frames;
    // Everything times the unit.
    lemma_mul_is_distributive_sub(u, shown * sr, 1000 * frames);
    lemma_mul_is_associative(u, shown, sr);
    lemma_mul_is_associative(u, 1000, frames);
    lemma_mul_is_commutative(u, 1000);
    lemma_mul_is_associative(1000, u, frames);
    lemma_mul_is_commutative(u, frames);
    assert(u * shown == 1000 * q + off);
    lemma_mul_is_commutative(1000 * q + off, sr);
    lemma_mul_is_distributive_add(sr, 1000 * q, off);
    lemma_mul_is_associative(sr, 1000, q);
    lemma_mul_is_commutative(sr, 1000);
    lemma_mul_is_associative(1000, sr, q);
    lemma_mul_is_commutative(sr, q);
    assert(u * gap == 1000 * (q * sr) + sr * off - 1000 * (frames * u));
    lemma_mul_inequality(-3 * u, 4 * off, sr);
    lemma_mul_inequality(4 * off, 3 * u, sr);
    lemma_mul_is_commutative(sr, off);
    lemma_mul_is_associative(4, off, sr);
    lemma_mul_is_associative(3, u, sr);
    lemma_mul_is_associative(-3, u, sr);
    lemma_mul_inequality(4096, u, sr);
    let us = u * sr;
    assert(-3 * us <= 4 * (off * sr) <= 3 * us);
    assert(4 * (u * gap) <= 3 * us + 2000 * sr);
    assert(4 * (u * gap) >= -(3 * us + 2000 * sr));
    assert(2000 * sr <= us);
    assert(-us <= u * gap <= us);
    if gap > sr {
        lemma_mul_inequality(sr + 1, gap, u);
        lemma_mul_is_commutative(u, gap);
        lemma_mul_is_distributive_add(u, sr, 1);
        lemma_mul_is_commutative(u, sr + 1);
    } else if gap < -sr {
        lemma_mul_inequality(gap, -sr - 1, u);
        lemma_mul_is_commutative(u, gap);
        lemma_mul_is_distributive_add(u, -sr, -1);
        lemma_mul_is_commutative(u, -sr - 1);
        lemma_mul_is_commutative(u, -sr);
        vstd::arithmetic::mul::lemma_mul_unary_negation(sr, u);
        lemma_mul_is_commutative(u, sr);
    }
}

} // verus!
