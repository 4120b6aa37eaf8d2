//! What the low pass, the high pass and the band pass let by.

use vstd::prelude::*;
use vstd::std_specs::ops::{AddSpec, MulSpec, SubSpec};

use crate::dsp::eq::laws::{
    all_divided, all_finite, back_to_size, centre_gain, centre_of, ends_of, fastest_gain,
    few_errors, gain_of, has_width, reads_filters, scaled_back, steady_gain, turns_at, usable,
    width_bounds,
};
use crate::dsp::eq::{BiquadCoeffs, Tone};
use crate::reading::{
    about, about_product, apart, product_from_zero, regroup, spread, within_product, within_real,
};
use crate::sample::{finite, half, num, Sample};

verus! {

/// How wide a filter is, from its coefficients times `d`.
proof fn width_of<S: Sample>(
    value: spec_fn(S) -> real,
    c: BiquadCoeffs<S>,
    d: real,
    n: (real, real, real),
    p: (real, real),
    w: real,
    k: real,
    r: real,
    err: real,
)
    requires
        scaled_back(value, c, d, n, p, k * d * err),
        within_real(d - p.1 - w * (d + p.1), r * err),
        within_real(w, 16real),
        d >= 1real / 4real,
        0real <= k,
        0real <= r,
        0real <= err,
    ensures
        has_width(value, c, w, (35real * k + 4real * r) * err),
{
    let a2 = value(c.a2);
    product_from_zero(k, d);
    product_from_zero(k * d, err);
    spread(a2, 0real, d);
    assert(0real * d == 0real && 1real * d == d);
    gain_of((1real, 0real, -a2), (0real, a2), d, (d, 0real, -p.1), (0real, p.1), w, k, r, err);
}

/// What the low pass, the high pass and the band pass of a tone have in common
/// before they are divided.
proof fn pass_parts<S: Sample>(
    value: spec_fn(S) -> real,
    top: real,
    err: real,
    t: Tone<S>,
    q: S,
)
    requires
        reads_filters(value, top, err),
        usable(value, t, q),
    ensures
        ({
            let alpha = BiquadCoeffs::alpha_spec(t, q);
            let al = value(alpha);
            let cos = value(t.cos_w);
            let one = num::<S>(1);
            &&& 0real <= err <= 1real / 1024real
            &&& finite(alpha)
            &&& -(1real / 64real) <= al <= 5real / 4real
            &&& about(value, num::<S>(-1i16).mul_spec(alpha), -al, err)
            &&& about(value, num::<S>(0), 0real, 0real)
            &&& about(value, one.add_spec(alpha), 1real + al, err)
            &&& about(value, num::<S>(-2i16).mul_spec(t.cos_w), -2real * cos, err)
            &&& about(value, one.sub_spec(alpha), 1real - al, err)
            &&& about(value, one.sub_spec(t.cos_w), 1real - cos, err)
            &&& about(value, one.add_spec(t.cos_w), 1real + cos, err)
            &&& about(
                value,
                one.sub_spec(t.cos_w).mul_spec(half()),
                (1real - cos) / 2real,
                4real * err,
            )
            &&& about(
                value,
                one.add_spec(t.cos_w).mul_spec(half()),
                (1real + cos) / 2real,
                4real * err,
            )
            &&& about(
                value,
                num::<S>(-1i16).mul_spec(one.add_spec(t.cos_w)),
                -(1real + cos),
                2real * err,
            )
        }),
{
    width_bounds(value, top, err, t, q);
    reveal(reads_filters);
    let one = num::<S>(1);
    let alpha = BiquadCoeffs::alpha_spec(t, q);
    let cos = value(t.cos_w);
    assert(value(one) == 1real && value(num::<S>(-2i16)) == -2real);
    assert(value(num::<S>(-1i16)) == -1real && value(num::<S>(0)) == 0real);
    assert(value(num::<S>(2)) == 2real);
    assert(about(value, half::<S>(), 1real / 2real, err));
    let below = one.sub_spec(t.cos_w);
    let above = one.add_spec(t.cos_w);
    halved(value, top, err, below, 1real - cos);
    halved(value, top, err, above, 1real + cos);
}

/// Half of a number of at most two.
proof fn halved<S: Sample>(value: spec_fn(S) -> real, top: real, err: real, a: S, x: real)
    requires
        reads_filters(value, top, err),
        about(value, a, x, err),
        within_real(x, 2real),
    ensures
        about(value, a.mul_spec(half()), x / 2real, 4real * err),
{
    reveal(reads_filters);
    assert(value(num::<S>(1)) == 1real && value(num::<S>(2)) == 2real);
    assert(about(value, half::<S>(), 1real / 2real, err));
    let h = 1real / 2real;
    small_square(err);
    about_product(value, top, err, a, x, err, 2real, half(), h, err, h);
}

pub(crate) proof fn small_square(err: real)
    requires
        0real <= err <= 1real / 1024real,
    ensures
        0real <= err * err <= err / 1024real,
{
    product_from_zero(err, err);
    product_from_zero(err, 1real / 1024real - err);
    spread(1real / 1024real, err, err);
    regroup(err, 1real / 1024real, 0real);
}

/// The low pass leaves steady sounds as they are and stops the fastest ones. It
/// is as wide as its half width says.
pub proof fn low_passes_stop_the_fastest<S: Sample>(
    value: spec_fn(S) -> real,
    top: real,
    err: real,
    t: Tone<S>,
    q: S,
)
    requires
        reads_filters(value, top, err),
        usable(value, t, q),
    ensures
        ({
            let c = BiquadCoeffs::lpf_spec(t, q);
            let width = value(BiquadCoeffs::alpha_spec(t, q));
            &&& all_finite(c)
            &&& steady_gain(value, c, 1real, 1000real * err)
            &&& fastest_gain(value, c, 0real, 1000real * err)
            &&& has_width(value, c, width, 1000real * err)
            &&& turns_at(value, c, value(t.cos_w), 1000real * err)
        }),
{
    pass_parts(value, top, err, t, q);
    let one = num::<S>(1);
    let alpha = BiquadCoeffs::alpha_spec(t, q);
    let exact = value(alpha);
    let below = one.sub_spec(t.cos_w);
    let side = below.mul_spec(half());
    let n = (side, below, side);
    let a0 = one.add_spec(alpha);
    let p = (num::<S>(-2i16).mul_spec(t.cos_w), one.sub_spec(alpha));
    all_divided(value, top, err, n, a0, p, 8real);
    let c = BiquadCoeffs::lpf_spec(t, q);
    let nv = (value(n.0), value(n.1), value(n.2));
    let pv = (value(p.0), value(p.1));
    let d = value(a0);
    ends_of(value, c, d, nv, pv, 1real, 0real, 9real, 80real, err);
    pass_width(exact, d, pv.1, err);
    width_of(value, c, d, nv, pv, exact, 9real, 80real, err);
    turn_of(value, c, value(t.cos_w), d, nv, pv, 9real, 80real, err);
    few_errors(35real * 9real + 4real * 80real, err);
}

/// The high pass stops steady sounds and leaves the fastest ones as they are. It
/// is as wide as its half width says.
pub proof fn high_passes_stop_steady_sounds<S: Sample>(
    value: spec_fn(S) -> real,
    top: real,
    err: real,
    t: Tone<S>,
    q: S,
)
    requires
        reads_filters(value, top, err),
        usable(value, t, q),
    ensures
        ({
            let c = BiquadCoeffs::hpf_spec(t, q);
            let width = value(BiquadCoeffs::alpha_spec(t, q));
            &&& all_finite(c)
            &&& steady_gain(value, c, 0real, 1000real * err)
            &&& fastest_gain(value, c, 1real, 1000real * err)
            &&& has_width(value, c, width, 1000real * err)
            &&& turns_at(value, c, value(t.cos_w), 1000real * err)
        }),
{
    pass_parts(value, top, err, t, q);
    let one = num::<S>(1);
    let alpha = BiquadCoeffs::alpha_spec(t, q);
    let exact = value(alpha);
    let above = one.add_spec(t.cos_w);
    let side = above.mul_spec(half());
    let n = (side, num::<S>(-1i16).mul_spec(above), side);
    let a0 = one.add_spec(alpha);
    let p = (num::<S>(-2i16).mul_spec(t.cos_w), one.sub_spec(alpha));
    all_divided(value, top, err, n, a0, p, 8real);
    let c = BiquadCoeffs::hpf_spec(t, q);
    let nv = (value(n.0), value(n.1), value(n.2));
    let pv = (value(p.0), value(p.1));
    let d = value(a0);
    ends_of(value, c, d, nv, pv, 0real, 1real, 9real, 80real, err);
    pass_width(exact, d, pv.1, err);
    width_of(value, c, d, nv, pv, exact, 9real, 80real, err);
    turn_of(value, c, value(t.cos_w), d, nv, pv, 9real, 80real, err);
    few_errors(35real * 9real + 4real * 80real, err);
}

/// The band pass stops steady sounds and the fastest ones, and leaves a wave at
/// its own frequency as it is. It is as wide as its half width says.
pub proof fn band_passes_stop_both_ends<S: Sample>(
    value: spec_fn(S) -> real,
    top: real,
    err: real,
    t: Tone<S>,
    q: S,
)
    requires
        reads_filters(value, top, err),
        usable(value, t, q),
    ensures
        ({
            let c = BiquadCoeffs::bpf_spec(t, q);
            let width = value(BiquadCoeffs::alpha_spec(t, q));
            &&& all_finite(c)
            &&& steady_gain(value, c, 0real, 1000real * err)
            &&& fastest_gain(value, c, 0real, 1000real * err)
            &&& centre_gain(value, c, value(t.cos_w), 1real, 1000real * err)
            &&& has_width(value, c, width, 1000real * err)
        }),
{
    pass_parts(value, top, err, t, q);
    let one = num::<S>(1);
    let alpha = BiquadCoeffs::alpha_spec(t, q);
    let exact = value(alpha);
    let cos = value(t.cos_w);
    let n = (alpha, num::<S>(0), num::<S>(-1i16).mul_spec(alpha));
    let a0 = one.add_spec(alpha);
    let p = (num::<S>(-2i16).mul_spec(t.cos_w), one.sub_spec(alpha));
    all_divided(value, top, err, n, a0, p, 8real);
    let c = BiquadCoeffs::bpf_spec(t, q);
    let nv = (value(n.0), value(n.1), value(n.2));
    let pv = (value(p.0), value(p.1));
    let d = value(a0);
    ends_of(value, c, d, nv, pv, 0real, 0real, 9real, 80real, err);
    pass_width(exact, d, pv.1, err);
    width_of(value, c, d, nv, pv, exact, 9real, 80real, err);
    within_product(nv.0 + nv.2, cos, 7real * err, 1real);
    pass_turn(cos, d, pv, err);
    centre_of(value, c, cos, d, nv, pv, 1real, 9real, 80real, err);
    few_errors(35real * 9real + 4real * 80real, err);
}

proof fn pass_width(exact: real, d: real, p1: real, err: real)
    requires
        within_real(exact, 2real),
        0real <= err,
        apart(d, 1real + exact) <= 4real * err,
        apart(p1, 1real - exact) <= 4real * err,
    ensures
        within_real(d - p1 - exact * (d + p1), 80real * err),
{
    let s = d + p1 - 2real;
    spread(2real, s, exact);
    within_product(exact, s, 2real, 8real * err);
}

proof fn pass_turn(cos: real, d: real, p: (real, real), err: real)
    requires
        within_real(cos, 1real),
        0real <= err,
        within_real(d + p.1 - 2real, 8real * err),
        apart(p.0, -2real * cos) <= err,
    ensures
        within_real((d + p.1) * cos + p.0, 80real * err),
{
    let s = d + p.1 - 2real;
    spread(2real, s, cos);
    within_product(s, cos, 8real * err, 1real);
}

/// Where a filter turns, from its coefficients times `d`.
proof fn turn_of<S: Sample>(
    value: spec_fn(S) -> real,
    c: BiquadCoeffs<S>,
    cos: real,
    d: real,
    n: (real, real, real),
    p: (real, real),
    k: real,
    r: real,
    err: real,
)
    requires
        scaled_back(value, c, d, n, p, k * d * err),
        within_real(cos, 1real),
        within_real(d + p.1 - 2real, 8real * err),
        apart(p.0, -2real * cos) <= err,
        d >= 1real / 4real,
        0real <= k,
        80real <= r,
        0real <= err,
    ensures
        turns_at(value, c, cos, (35real * k + 4real * r) * err),
{
    let (a1, a2) = (value(c.a1), value(c.a2));
    let e = k * d * err;
    product_from_zero(k, d);
    product_from_zero(k * d, err);
    product_from_zero(k, err);
    product_from_zero(r - 80real, err);
    spread(r, 80real, err);
    pass_turn(cos, d, p, err);
    spread(3real * k, 4real * r, err);
    spread(35real * k, 4real * r, err);
    regroup(3real, k, err);
    regroup(35real, k, err);
    regroup(3real, k * d, err);
    regroup(3real, k, d);
    let y = (1real + a2) * cos + a1;
    let w = a2 * d - p.1;
    spread((1real + a2) * cos, a1, d);
    regroup(1real + a2, cos, d);
    regroup(cos, d, 0real);
    regroup(1real + a2, d, cos);
    spread(1real, a2, d);
    spread(d + p.1, w, cos);
    assert(y * d == (d + p.1) * cos + w * cos + a1 * d);
    within_product(w, cos, e, 1real);
    assert(within_real(y * d, 3real * e + r * err));
    back_to_size(y, d, 3real * k, r, err);
}

} // verus!
