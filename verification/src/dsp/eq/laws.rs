//! What the filters of the equaliser do to sounds: which they let by as they
//! are, which they raise or lower, and which they stop.

use vstd::prelude::*;
use vstd::std_specs::ops::{AddSpec, DivSpec, MulSpec, SubSpec};

use crate::dsp::eq::{BiquadCoeffs, Tone};
use crate::reading::{
    about, about_difference, about_sum, apart, product_from_zero, quotient_times_divisor, reads,
    regroup, spread, within_product, within_real,
};
use crate::sample::{finite, half, num, Sample};

verus! {

/// Numbers are read closely enough, and far enough, for the filters.
#[verifier::opaque]
pub open spec fn reads_filters<S: Sample>(value: spec_fn(S) -> real, top: real, err: real) -> bool {
    &&& reads(value, top, err)
    &&& top >= 1024real
    &&& err <= 1real / 1024real
}

/// A tone and a quality as the bands have them: a cosine and a sine, and gains
/// of up to 24 dB either way.
pub open spec fn usable<S: Sample>(value: spec_fn(S) -> real, t: Tone<S>, q: S) -> bool {
    &&& finite(t.cos_w) && within_real(value(t.cos_w), 1real)
    &&& finite(t.sin_w) && 0real <= value(t.sin_w) <= 1real
    &&& finite(t.amp) && 1real / 4real <= value(t.amp) <= 4real
    &&& finite(t.sqrt_amp) && 1real / 2real <= value(t.sqrt_amp) <= 2real
    &&& finite(q) && 1real / 2real <= value(q) <= 16real
}

/// All coefficients are finite.
pub open spec fn all_finite<S: Sample>(c: BiquadCoeffs<S>) -> bool {
    finite(c.b0) && finite(c.b1) && finite(c.b2) && finite(c.a1) && finite(c.a2)
}

/// A steady sound of size one comes out at size `gain`, but for `slack`.
pub open spec fn steady_gain<S: Sample>(
    value: spec_fn(S) -> real,
    c: BiquadCoeffs<S>,
    gain: real,
    slack: real,
) -> bool {
    apart(
        value(c.b0) + value(c.b1) + value(c.b2),
        gain * (1real + value(c.a1) + value(c.a2)),
    ) <= slack
}

/// The fastest sound there is, which changes sign from sample to sample, comes
/// out at `gain` times its size, but for `slack`.
pub open spec fn fastest_gain<S: Sample>(
    value: spec_fn(S) -> real,
    c: BiquadCoeffs<S>,
    gain: real,
    slack: real,
) -> bool {
    apart(
        value(c.b0) - value(c.b1) + value(c.b2),
        gain * (1real - value(c.a1) + value(c.a2)),
    ) <= slack
}

/// A wave at the frequency whose cosine is `cos` comes out at `gain` times its
/// size and in step with itself, but for `slack`: so it is where its even part
/// cancels on both sides and its odd parts are in that ratio.
pub open spec fn centre_gain<S: Sample>(
    value: spec_fn(S) -> real,
    c: BiquadCoeffs<S>,
    cos: real,
    gain: real,
    slack: real,
) -> bool {
    &&& apart((value(c.b0) + value(c.b2)) * cos + value(c.b1), 0real) <= slack
    &&& apart((1real + value(c.a2)) * cos + value(c.a1), 0real) <= slack
    &&& apart(value(c.b0) - value(c.b2), gain * (1real - value(c.a2))) <= slack
}

/// The poles of a filter lie at the frequency whose cosine is `cos`, but for
/// `slack`.
pub open spec fn turns_at<S: Sample>(
    value: spec_fn(S) -> real,
    c: BiquadCoeffs<S>,
    cos: real,
    slack: real,
) -> bool {
    apart((1real + value(c.a2)) * cos + value(c.a1), 0real) <= slack
}

/// How fast a filter's own ringing dies away, which makes it narrow or wide: as
/// `width` says.
pub open spec fn has_width<S: Sample>(
    value: spec_fn(S) -> real,
    c: BiquadCoeffs<S>,
    width: real,
    slack: real,
) -> bool {
    apart(1real - value(c.a2), width * (1real + value(c.a2))) <= slack
}

/// A filter's own ringing dies away as `rest` and `width` say: the wider it is,
/// the sooner.
pub open spec fn rings<S: Sample>(
    value: spec_fn(S) -> real,
    c: BiquadCoeffs<S>,
    rest: real,
    width: real,
    slack: real,
) -> bool {
    apart(rest * (1real - value(c.a2)), width * (1real + value(c.a2))) <= slack
}

/// The filter changes nothing, but for `slack`: what it adds of the past input
/// it takes away again of the past output.
pub open spec fn changes_nothing<S: Sample>(
    value: spec_fn(S) -> real,
    c: BiquadCoeffs<S>,
    slack: real,
) -> bool {
    &&& apart(value(c.b0), 1real) <= slack
    &&& apart(value(c.b1), value(c.a1)) <= slack
    &&& apart(value(c.b2), value(c.a2)) <= slack
}

/// Half the width of a filter is half its sine over its quality.
pub proof fn widths_are_half_the_sine_over_the_quality<S: Sample>(
    value: spec_fn(S) -> real,
    top: real,
    err: real,
    t: Tone<S>,
    q: S,
)
    requires
        reads_filters(value, top, err),
        usable(value, t, q),
    ensures
        about(
            value,
            BiquadCoeffs::alpha_spec(t, q),
            value(t.sin_w) / (2real * value(q)),
            3real * err,
        ),
        0real <= value(t.sin_w) / (2real * value(q)) <= 1real,
        -(1real / 64real) <= value(BiquadCoeffs::alpha_spec(t, q)) <= 5real / 4real,
{
    reveal(reads_filters);
    let two_q = num::<S>(2).mul_spec(q);
    let s = value(t.sin_w);
    let w = 2real * value(q);
    assert(value(num::<S>(2)) == 2real);
    let d = value(two_q);
    assert(apart(d, w) <= err);
    assert(d >= 1real - 1real / 1024real);
    let exact = s / w;
    let seen = s / d;
    assert(0real <= exact <= 1real) by (nonlinear_arith)
        requires
            exact == s / w,
            0real <= s <= 1real,
            w >= 1real,
    ;
    assert(0real <= seen <= 9real / 8real && -2real * err <= seen - exact <= 2real * err)
        by (nonlinear_arith)
        requires
            exact == s / w,
            seen == s / d,
            0real <= s <= 1real,
            w >= 1real,
            d >= 1023real / 1024real,
            -err <= d - w <= err,
            0real <= err,
    {
        assert(exact * w == s && seen * d == s);
        assert((seen - exact) * d == exact * (w - d));
    }
}

/// One coefficient: a number divided by `d` by way of the inverse of that.
proof fn divided<S: Sample>(
    value: spec_fn(S) -> real,
    top: real,
    err: real,
    b: S,
    d: S,
    m: real,
)
    requires
        reads_filters(value, top, err),
        finite(b),
        finite(d),
        within_real(value(b), m),
        1real <= m <= 96real,
        1real / 4real <= value(d) <= 96real,
    ensures
        ({
            let r = b.mul_spec(num::<S>(1).div_spec(d));
            &&& finite(r)
            &&& apart(value(r) * value(d), value(b)) <= (m + 1real) * value(d) * err
        }),
{
    reveal(reads_filters);
    let inv = num::<S>(1).div_spec(d);
    let (bv, dv) = (value(b), value(d));
    assert(value(num::<S>(1)) == 1real);
    assert(0real <= 1real / dv <= 4real) by (nonlinear_arith)
        requires
            dv >= 1real / 4real,
    ;
    assert(about(value, inv, 1real / dv, err));
    let e = value(inv) - 1real / dv;
    within_product(bv, value(inv), m, 5real);
    let r = b.mul_spec(inv);
    let f = value(r) - bv * value(inv);
    assert(value(r) * dv - bv == (bv * e + f) * dv) by (nonlinear_arith)
        requires
            f == value(r) - bv * value(inv),
            e == value(inv) - 1real / dv,
            dv > 0real,
    {
        assert((1real / dv) * dv == 1real);
        assert(value(r) == bv * (1real / dv) + bv * e + f);
        assert(bv * (1real / dv) * dv == bv);
    }
    within_product(bv, e, m, err);
    assert(within_real(bv * e + f, m * err + err));
    within_product(bv * e + f, dv, m * err + err, dv);
    assert((m * err + err) * dv == (m + 1real) * dv * err) by (nonlinear_arith);
}

/// The coefficients of a filter times what they were divided by.
pub open spec fn scaled_back<S: Sample>(
    value: spec_fn(S) -> real,
    c: BiquadCoeffs<S>,
    d: real,
    n: (real, real, real),
    p: (real, real),
    slack: real,
) -> bool {
    &&& all_finite(c)
    &&& apart(value(c.b0) * d, n.0) <= slack
    &&& apart(value(c.b1) * d, n.1) <= slack
    &&& apart(value(c.b2) * d, n.2) <= slack
    &&& apart(value(c.a1) * d, p.0) <= slack
    &&& apart(value(c.a2) * d, p.1) <= slack
}

/// The coefficients of a filter times what they were divided by are what they
/// were before.
pub(crate) proof fn all_divided<S: Sample>(
    value: spec_fn(S) -> real,
    top: real,
    err: real,
    n: (S, S, S),
    a0: S,
    p: (S, S),
    m: real,
)
    requires
        reads_filters(value, top, err),
        1real <= m <= 96real,
        finite(n.0) && within_real(value(n.0), m),
        finite(n.1) && within_real(value(n.1), m),
        finite(n.2) && within_real(value(n.2), m),
        finite(p.0) && within_real(value(p.0), m),
        finite(p.1) && within_real(value(p.1), m),
        finite(a0),
        1real / 4real <= value(a0) <= 96real,
    ensures
        scaled_back(
            value,
            BiquadCoeffs::normalised_spec(n.0, n.1, n.2, a0, p.0, p.1),
            value(a0),
            (value(n.0), value(n.1), value(n.2)),
            (value(p.0), value(p.1)),
            (m + 1real) * value(a0) * err,
        ),
{
    divided(value, top, err, n.0, a0, m);
    divided(value, top, err, n.1, a0, m);
    divided(value, top, err, n.2, a0, m);
    divided(value, top, err, p.0, a0, m);
    divided(value, top, err, p.1, a0, m);
}

/// What is close to zero once it is multiplied by `d` is close to zero.
pub(crate) proof fn back_to_size(x: real, d: real, k: real, m: real, err: real)
    requires
        within_real(x * d, k * d * err + m * err),
        d >= 1real / 4real,
        0real <= err,
        0real <= m,
        0real <= k,
    ensures
        within_real(x, (k + 4real * m) * err),
{
    assert(within_real(x * d, (k + 4real * m) * err * d)) by {
        assert(m * err <= 4real * m * err * d) by (nonlinear_arith)
            requires
                d >= 1real / 4real,
                0real <= err,
                0real <= m,
        ;
        assert((k + 4real * m) * err * d == k * d * err + 4real * m * err * d)
            by (nonlinear_arith);
    }
    let b = (k + 4real * m) * err;
    assert(-b <= x <= b) by (nonlinear_arith)
        requires
            -(b * d) <= x * d <= b * d,
            d >= 1real / 4real,
    ;
}

/// The gain of a filter at one frequency, from its coefficients times `d`.
pub(crate) proof fn gain_of(
    b: (real, real, real),
    a: (real, real),
    d: real,
    n: (real, real, real),
    p: (real, real),
    g: real,
    k: real,
    r: real,
    err: real,
)
    requires
        apart(b.0 * d, n.0) <= k * d * err,
        apart(b.1 * d, n.1) <= k * d * err,
        apart(b.2 * d, n.2) <= k * d * err,
        apart(a.0 * d, p.0) <= k * d * err,
        apart(a.1 * d, p.1) <= k * d * err,
        within_real(n.0 + n.1 + n.2 - g * (d + p.0 + p.1), r * err),
        within_real(g, 16real),
        d >= 1real / 4real,
        0real <= k,
        0real <= r,
        0real <= err,
    ensures
        apart(b.0 + b.1 + b.2, g * (1real + a.0 + a.1)) <= (35real * k + 4real * r) * err,
{
    let s = b.0 + b.1 + b.2;
    let v = 1real + a.0 + a.1;
    let x = s - g * v;
    let e = k * d * err;
    product_from_zero(k, d);
    product_from_zero(k * d, err);
    let u = (a.0 * d - p.0) + (a.1 * d - p.1);
    let z = d + p.0 + p.1;
    spread(s, g * v, d);
    spread(b.0 + b.1, b.2, d);
    spread(b.0, b.1, d);
    regroup(g, v, d);
    spread(1real + a.0, a.1, d);
    spread(1real, a.0, d);
    assert(v * d == z + u);
    spread(z, u, g);
    assert(x * d == (b.0 * d + b.1 * d + b.2 * d) - (g * z + g * u));
    within_product(g, u, 16real, 2real * e);
    assert(within_real(x * d, 35real * e + r * err));
    regroup(35real, k * d, err);
    regroup(35real, k, d);
    back_to_size(x, d, 35real * k, r, err);
}

/// A number that was divided by `d`, and another, are as far apart as before.
proof fn alike(b: real, a: real, d: real, n: real, p: real, k: real, r: real, err: real)
    requires
        apart(b * d, n) <= k * d * err,
        apart(a * d, p) <= k * d * err,
        within_real(n - p, r * err),
        d >= 1real / 4real,
        0real <= k,
        0real <= r,
        0real <= err,
    ensures
        apart(b, a) <= (2real * k + 4real * r) * err,
{
    let x = b - a;
    spread(b, a, d);
    regroup(2real, k * d, err);
    regroup(2real, k, d);
    back_to_size(x, d, 2real * k, r, err);
}

/// A filter's gains for steady and for the fastest sounds, from its
/// coefficients times `d`.
pub(crate) proof fn ends_of<S: Sample>(
    value: spec_fn(S) -> real,
    c: BiquadCoeffs<S>,
    d: real,
    n: (real, real, real),
    p: (real, real),
    low: real,
    high: real,
    k: real,
    r: real,
    err: real,
)
    requires
        scaled_back(value, c, d, n, p, k * d * err),
        within_real(n.0 + n.1 + n.2 - low * (d + p.0 + p.1), r * err),
        within_real(n.0 - n.1 + n.2 - high * (d - p.0 + p.1), r * err),
        0real <= low <= 16real,
        0real <= high <= 16real,
        d >= 1real / 4real,
        0real <= k,
        0real <= r,
        0real <= err,
    ensures
        steady_gain(value, c, low, (35real * k + 4real * r) * err),
        fastest_gain(value, c, high, (35real * k + 4real * r) * err),
{
    let b = (value(c.b0), value(c.b1), value(c.b2));
    let a = (value(c.a1), value(c.a2));
    gain_of(b, a, d, n, p, low, k, r, err);
    spread(b.1, 0real, d);
    spread(a.0, 0real, d);
    gain_of((b.0, -b.1, b.2), (-a.0, a.1), d, (n.0, -n.1, n.2), (-p.0, p.1), high, k, r, err);
}

/// A filter's gain at its own frequency, from its coefficients times `d`.
pub(crate) proof fn centre_of<S: Sample>(
    value: spec_fn(S) -> real,
    c: BiquadCoeffs<S>,
    cos: real,
    d: real,
    n: (real, real, real),
    p: (real, real),
    g: real,
    k: real,
    r: real,
    err: real,
)
    requires
        scaled_back(value, c, d, n, p, k * d * err),
        within_real(cos, 1real),
        within_real((n.0 + n.2) * cos + n.1, r * err),
        within_real((d + p.1) * cos + p.0, r * err),
        within_real(n.0 - n.2 - g * (d - p.1), r * err),
        0real <= g <= 16real,
        d >= 1real / 4real,
        0real <= k,
        0real <= r,
        0real <= err,
    ensures
        centre_gain(value, c, cos, g, (35real * k + 4real * r) * err),
{
    let (b0, b1, b2) = (value(c.b0), value(c.b1), value(c.b2));
    let (a1, a2) = (value(c.a1), value(c.a2));
    let e = k * d * err;
    product_from_zero(k, d);
    product_from_zero(k * d, err);
    product_from_zero(k, err);
    spread(3real * k, 4real * r, err);
    spread(35real * k, 4real * r, err);
    regroup(3real, k, err);
    regroup(35real, k, err);
    regroup(3real, k * d, err);
    regroup(3real, k, d);
    let x = (b0 + b2) * cos + b1;
    let u = (b0 * d - n.0) + (b2 * d - n.2);
    spread((b0 + b2) * cos, b1, d);
    regroup(b0 + b2, cos, d);
    regroup(cos, d, 0real);
    regroup(b0 + b2, d, cos);
    spread(b0, b2, d);
    spread(n.0 + n.2, u, cos);
    assert(x * d == (n.0 + n.2) * cos + u * cos + b1 * d);
    within_product(u, cos, 2real * e, 1real);
    assert(within_real(x * d, 3real * e + r * err));
    back_to_size(x, d, 3real * k, r, err);
    let y = (1real + a2) * cos + a1;
    let w = a2 * d - p.1;
    spread((1real + a2) * cos, a1, d);
    regroup(1real + a2, cos, d);
    regroup(1real + a2, d, cos);
    spread(1real, a2, d);
    spread(d + p.1, w, cos);
    assert(y * d == (d + p.1) * cos + w * cos + a1 * d);
    within_product(w, cos, e, 1real);
    assert(within_real(y * d, 3real * e + r * err));
    back_to_size(y, d, 3real * k, r, err);
    spread(b2, 0real, d);
    spread(a2, 0real, d);
    assert(0real * d == 0real);
    gain_of((b0, 0real, -b2), (0real, -a2), d, (n.0, 0real, -n.2), (0real, -p.1), g, k, r, err);
}

/// A bell leaves steady sounds and the fastest ones as they are, and raises or
/// lowers a wave at its own frequency by the square of its amplitude.
pub proof fn bells_act_at_their_frequency<S: Sample>(
    value: spec_fn(S) -> real,
    top: real,
    err: real,
    t: Tone<S>,
    q: S,
)
    requires
        reads_filters(value, top, err),
        usable(value, t, q),
    ensures
        ({
            let c = BiquadCoeffs::peak_spec(t, q);
            let amp = value(t.amp);
            &&& all_finite(c)
            &&& steady_gain(value, c, 1real, 1000real * err)
            &&& fastest_gain(value, c, 1real, 1000real * err)
            &&& centre_gain(value, c, value(t.cos_w), amp * amp, 1000real * err)
        }),
{
    let (n, a0, p) = bell_parts(value, top, err, t, q);
    let c = BiquadCoeffs::peak_spec(t, q);
    let cos = value(t.cos_w);
    let amp = value(t.amp);
    let alpha = value(BiquadCoeffs::alpha_spec(t, q));
    let nv = (value(n.0), value(n.1), value(n.2));
    let d = value(a0);
    let pv = (value(p.0), value(p.1));
    bell_balances(alpha, amp, cos, nv, d, pv, err);
    ends_of(value, c, d, nv, pv, 1real, 1real, 9real, 80real, err);
    centre_of(value, c, cos, d, nv, pv, amp * amp, 9real, 80real, err);
    few_errors(35real * 9real + 4real * 80real, err);
}

/// The two sides of a bell balance at both ends, and at its own frequency but
/// for its gain.
proof fn bell_balances(
    alpha: real,
    amp: real,
    cos: real,
    n: (real, real, real),
    d: real,
    p: (real, real),
    err: real,
)
    requires
        1real / 4real <= amp <= 4real,
        within_real(cos, 1real),
        0real <= err,
        apart(n.0, 1real + alpha * amp) <= 2real * err,
        apart(n.1, -2real * cos) <= err,
        apart(n.2, 1real - alpha * amp) <= 2real * err,
        apart(d, 1real + alpha / amp) <= 2real * err,
        apart(p.0, -2real * cos) <= err,
        apart(p.1, 1real - alpha / amp) <= 2real * err,
    ensures
        0real <= amp * amp <= 16real,
        within_real(n.0 + n.1 + n.2 - 1real * (d + p.0 + p.1), 80real * err),
        within_real(n.0 - n.1 + n.2 - 1real * (d - p.0 + p.1), 80real * err),
        within_real((n.0 + n.2) * cos + n.1, 80real * err),
        within_real((d + p.1) * cos + p.0, 80real * err),
        within_real(n.0 - n.2 - (amp * amp) * (d - p.1), 80real * err),
{
    let (u, w) = (alpha * amp, alpha / amp);
    let g = amp * amp;
    within_product(amp, amp, 4real, 4real);
    product_from_zero(amp, amp);
    quotient_times_divisor(alpha, amp);
    regroup(amp, amp, w);
    regroup(amp, w, 0real);
    regroup(amp, alpha, 0real);
    assert(g * w == u);
    let sum = n.0 + n.2 - 2real;
    spread(2real, sum, cos);
    within_product(sum, cos, 4real * err, 1real);
    let below = d + p.1 - 2real;
    spread(2real, below, cos);
    within_product(below, cos, 4real * err, 1real);
    let f = d - p.1 - 2real * w;
    spread(2real * w, f, g);
    regroup(g, 2real, w);
    regroup(2real, g, w);
    within_product(g, f, 16real, 4real * err);
    assert(g * (d - p.1) == 2real * u + g * f);
}

pub(crate) proof fn few_errors(n: real, err: real)
    requires
        n <= 1000real,
        0real <= err,
    ensures
        n * err <= 1000real * err,
{
    product_from_zero(1000real - n, err);
    spread(1000real, n, err);
}

proof fn times_one(x: real, y: real)
    requires
        y == 1real,
    ensures
        x * y == x,
        x / y == x,
{
    assert(x * 1real == x && x / 1real == x);
}

/// A bell at 0 dB changes nothing.
pub proof fn flat_bells_change_nothing<S: Sample>(
    value: spec_fn(S) -> real,
    top: real,
    err: real,
    t: Tone<S>,
    q: S,
)
    requires
        reads_filters(value, top, err),
        usable(value, t, q),
        value(t.amp) == 1real,
    ensures
        all_finite(BiquadCoeffs::peak_spec(t, q)),
        changes_nothing(value, BiquadCoeffs::peak_spec(t, q), 1000real * err),
{
    let (n, a0, p) = bell_parts(value, top, err, t, q);
    let c = BiquadCoeffs::peak_spec(t, q);
    let alpha = value(BiquadCoeffs::alpha_spec(t, q));
    let d = value(a0);
    times_one(alpha, value(t.amp));
    let nv = (value(n.0), value(n.1), value(n.2));
    flat_from(value, c, d, nv, (value(p.0), value(p.1)), 9real, 80real, err);
    few_errors(2real * 9real + 4real * 80real, err);
}

/// A filter whose two sides agree changes nothing.
pub(crate) proof fn flat_from<S: Sample>(
    value: spec_fn(S) -> real,
    c: BiquadCoeffs<S>,
    d: real,
    n: (real, real, real),
    p: (real, real),
    k: real,
    r: real,
    err: real,
)
    requires
        scaled_back(value, c, d, n, p, k * d * err),
        within_real(n.0 - d, r * err),
        within_real(n.1 - p.0, r * err),
        within_real(n.2 - p.1, r * err),
        d >= 1real / 4real,
        0real <= k,
        0real <= r,
        0real <= err,
    ensures
        changes_nothing(value, c, (2real * k + 4real * r) * err),
{
    product_from_zero(k, d);
    product_from_zero(k * d, err);
    assert(1real * d == d);
    alike(value(c.b0), 1real, d, n.0, d, k, r, err);
    alike(value(c.b1), value(c.a1), d, n.1, p.0, k, r, err);
    alike(value(c.b2), value(c.a2), d, n.2, p.1, k, r, err);
}

/// What the coefficients of a bell stand for before they are divided.
proof fn bell_parts<S: Sample>(
    value: spec_fn(S) -> real,
    top: real,
    err: real,
    t: Tone<S>,
    q: S,
) -> (r: ((S, S, S), S, (S, S)))
    requires
        reads_filters(value, top, err),
        usable(value, t, q),
    ensures
        ({
            let (n, a0, p) = r;
            let alpha = value(BiquadCoeffs::alpha_spec(t, q));
            let (u, w) = (alpha * value(t.amp), alpha / value(t.amp));
            let cos = value(t.cos_w);
            &&& 0real <= err
            &&& about(value, n.0, 1real + u, 2real * err)
            &&& about(value, n.1, -2real * cos, err)
            &&& about(value, n.2, 1real - u, 2real * err)
            &&& about(value, a0, 1real + w, 2real * err)
            &&& about(value, p.0, -2real * cos, err)
            &&& about(value, p.1, 1real - w, 2real * err)
            &&& value(a0) >= 1real / 4real
            &&& scaled_back(
                value,
                BiquadCoeffs::peak_spec(t, q),
                value(a0),
                (value(n.0), value(n.1), value(n.2)),
                (value(p.0), value(p.1)),
                9real * value(a0) * err,
            )
        }),
{
    reveal(reads_filters);
    let one = num::<S>(1);
    let alpha = BiquadCoeffs::alpha_spec(t, q);
    let slant = num::<S>(-2i16).mul_spec(t.cos_w);
    widths_are_half_the_sine_over_the_quality(value, top, err, t, q);
    let (al, amp) = (value(alpha), value(t.amp));
    assert(value(one) == 1real && value(num::<S>(-2i16)) == -2real);
    within_product(al, amp, 5real / 4real, 4real);
    quotient_times_divisor(al, amp);
    assert(-(1real / 16real) <= al / amp <= 5real) by {
        let x = al / amp;
        let rest = amp - 1real / 4real;
        if x > 5real {
            product_from_zero(x - 5real, rest);
            spread(x, 5real, rest);
            spread(amp, 1real / 4real, x);
        } else if x < -(1real / 16real) {
            product_from_zero(-x - 1real / 16real, rest);
            spread(-x, 1real / 16real, rest);
            spread(x, 0real, rest);
            spread(amp, 1real / 4real, x);
        }
        regroup(x, amp, 0real);
        regroup(x, rest, 0real);
    }
    let u = alpha.mul_spec(t.amp);
    let w = alpha.div_spec(t.amp);
    let n = (one.add_spec(u), slant, one.sub_spec(u));
    let a0 = one.add_spec(w);
    let p = (slant, one.sub_spec(w));
    assert(about(value, u, al * amp, err));
    assert(about(value, w, al / amp, err));
    about_sum(value, top, err, one, 1real, 0real, u, al * amp, err);
    about_difference(value, top, err, one, 1real, 0real, u, al * amp, err);
    about_sum(value, top, err, one, 1real, 0real, w, al / amp, err);
    about_difference(value, top, err, one, 1real, 0real, w, al / amp, err);
    all_divided(value, top, err, n, a0, p, 8real);
    (n, a0, p)
}

/// The half width of a usable filter is finite and small.
pub(crate) proof fn width_bounds<S: Sample>(
    value: spec_fn(S) -> real,
    top: real,
    err: real,
    t: Tone<S>,
    q: S,
)
    requires
        reads_filters(value, top, err),
        usable(value, t, q),
    ensures
        finite(BiquadCoeffs::alpha_spec(t, q)),
        -(1real / 64real) <= value(BiquadCoeffs::alpha_spec(t, q)) <= 5real / 4real,
        0real <= err <= 1real / 1024real,
{
    widths_are_half_the_sine_over_the_quality(value, top, err, t, q);
    reveal(reads_filters);
}

/// How a filter rings, from its coefficients times `d`.
pub(crate) proof fn ringing_of<S: Sample>(
    value: spec_fn(S) -> real,
    c: BiquadCoeffs<S>,
    d: real,
    n: (real, real, real),
    p: (real, real),
    s: real,
    w: real,
    k: real,
    r: real,
    err: real,
)
    requires
        scaled_back(value, c, d, n, p, k * d * err),
        within_real(s * (d - p.1) - w * (d + p.1), r * err),
        within_real(s, 8real),
        within_real(w, 16real),
        d >= 1real / 4real,
        0real <= k,
        0real <= r,
        0real <= err,
    ensures
        rings(value, c, s, w, (35real * (8real * k) + 4real * r) * err),
{
    let a2 = value(c.a2);
    product_from_zero(k, d);
    product_from_zero(k * d, err);
    let k8 = 8real * k;
    regroup(8real, k, d);
    regroup(8real, k * d, err);
    let e = k * d * err;
    assert(k8 * d * err == 8real * e);
    spread(1real, a2, s);
    spread(d, p.1, s);
    regroup(s, a2, d);
    spread(s * a2, 0real, d);
    let off = a2 * d - p.1;
    within_product(s, off, 8real, e);
    spread(p.1, off, s);
    assert(0real * d == 0real);
    gain_of(
        (s, 0real, -(s * a2)),
        (0real, a2),
        d,
        (s * d, 0real, -(s * p.1)),
        (0real, p.1),
        w,
        k8,
        r,
        err,
    );
}

/// A bell rings the shorter the wider it is, and the longer the more it raises.
pub proof fn bells_ring_by_their_width<S: Sample>(
    value: spec_fn(S) -> real,
    top: real,
    err: real,
    t: Tone<S>,
    q: S,
)
    requires
        reads_filters(value, top, err),
        usable(value, t, q),
    ensures
        rings(
            value,
            BiquadCoeffs::peak_spec(t, q),
            value(t.amp),
            value(BiquadCoeffs::alpha_spec(t, q)),
            3000real * err,
        ),
{
    let (n, a0, p) = bell_parts(value, top, err, t, q);
    width_bounds(value, top, err, t, q);
    let c = BiquadCoeffs::peak_spec(t, q);
    let alpha = value(BiquadCoeffs::alpha_spec(t, q));
    let amp = value(t.amp);
    let nv = (value(n.0), value(n.1), value(n.2));
    let d = value(a0);
    let pv = (value(p.0), value(p.1));
    bell_ringing(alpha, amp, d, pv.1, err);
    ringing_of(value, c, d, nv, pv, amp, alpha, 9real, 80real, err);
    let k = 35real * (8real * 9real) + 4real * 80real;
    product_from_zero(3000real - k, err);
    spread(3000real, k, err);
}

proof fn bell_ringing(alpha: real, amp: real, d: real, p1: real, err: real)
    requires
        1real / 4real <= amp <= 4real,
        within_real(alpha, 2real),
        0real <= err,
        apart(d, 1real + alpha / amp) <= 2real * err,
        apart(p1, 1real - alpha / amp) <= 2real * err,
    ensures
        within_real(amp * (d - p1) - alpha * (d + p1), 80real * err),
{
    let w = alpha / amp;
    quotient_times_divisor(alpha, amp);
    regroup(w, amp, 0real);
    let x = d - p1 - 2real * w;
    let y = d + p1 - 2real;
    spread(2real * w, x, amp);
    regroup(amp, 2real, w);
    regroup(2real, amp, w);
    within_product(amp, x, 4real, 4real * err);
    spread(2real, y, alpha);
    within_product(alpha, y, 2real, 4real * err);
    assert(amp * (2real * w) == 2real * alpha);
}

} // verus!
