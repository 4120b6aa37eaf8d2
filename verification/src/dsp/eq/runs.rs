//! What a filter makes of a sound that goes through it.

use vstd::prelude::*;
use vstd::std_specs::ops::{AddSpec, MulSpec, SubSpec};

use crate::dsp::eq::laws::{changes_nothing, fastest_gain, steady_gain};
use crate::dsp::eq::{BiquadCoeffs, BiquadState};
use crate::reading::{
    about, about_difference, about_sum, apart, reads, regroup, spread, within_product, within_real,
};
use crate::sample::{finite, le, num, real_like, same, Sample};

verus! {

/// A number is finite and no further from zero than `bound`.
pub open spec fn small<S: Sample>(value: spec_fn(S) -> real, x: S, bound: real) -> bool {
    finite(x) && within_real(value(x), bound)
}

/// The coefficients of a filter are finite and no further from zero than 64.
pub open spec fn small_coeffs<S: Sample>(value: spec_fn(S) -> real, c: BiquadCoeffs<S>) -> bool {
    &&& small(value, c.b0, 64real)
    &&& small(value, c.b1, 64real)
    &&& small(value, c.b2, 64real)
    &&& small(value, c.a1, 64real)
    &&& small(value, c.a2, 64real)
}

/// What a filter remembers is finite and no further from zero than eight.
pub open spec fn small_state<S: Sample>(value: spec_fn(S) -> real, s: BiquadState<S>) -> bool {
    &&& small(value, s.x1, 8real)
    &&& small(value, s.x2, 8real)
    &&& small(value, s.y1, 8real)
    &&& small(value, s.y2, 8real)
}

/// One product of a filter.
proof fn one_tap<S: Sample>(value: spec_fn(S) -> real, top: real, err: real, a: S, x: S)
    requires
        reads(value, top, err),
        top >= 4096real,
        small(value, a, 64real),
        small(value, x, 8real),
    ensures
        about(value, a.mul_spec(x), value(a) * value(x), err),
        within_real(value(a) * value(x), 512real),
{
    within_product(value(a), value(x), 64real, 8real);
}

/// What comes out of a filter: the weighted sum of the last three inputs, less
/// that of the last two outputs.
proof fn output_reads<S: Sample>(
    value: spec_fn(S) -> real,
    top: real,
    err: real,
    s: BiquadState<S>,
    x: S,
    c: BiquadCoeffs<S>,
)
    requires
        reads(value, top, err),
        top >= 4096real,
        err <= 1real,
        small_coeffs(value, c),
        small_state(value, s),
        small(value, x, 8real),
    ensures
        about(
            value,
            s.output(x, c),
            value(c.b0) * value(x) + value(c.b1) * value(s.x1) + value(c.b2) * value(s.x2) - value(
                c.a1,
            ) * value(s.y1) - value(c.a2) * value(s.y2),
            9real * err,
        ),
{
    one_tap(value, top, err, c.b0, x);
    one_tap(value, top, err, c.b1, s.x1);
    one_tap(value, top, err, c.b2, s.x2);
    one_tap(value, top, err, c.a1, s.y1);
    one_tap(value, top, err, c.a2, s.y2);
    let (p0, p1, p2) = (c.b0.mul_spec(x), c.b1.mul_spec(s.x1), c.b2.mul_spec(s.x2));
    let (q1, q2) = (c.a1.mul_spec(s.y1), c.a2.mul_spec(s.y2));
    let (r0, r1, r2) = (
        value(c.b0) * value(x),
        value(c.b1) * value(s.x1),
        value(c.b2) * value(s.x2),
    );
    let (t1, t2) = (value(c.a1) * value(s.y1), value(c.a2) * value(s.y2));
    about_sum(value, top, err, p0, r0, err, p1, r1, err);
    let u1 = p0.add_spec(p1);
    about_sum(value, top, err, u1, r0 + r1, 3real * err, p2, r2, err);
    let u2 = u1.add_spec(p2);
    about_difference(value, top, err, u2, r0 + r1 + r2, 5real * err, q1, t1, err);
    let u3 = u2.sub_spec(q1);
    about_difference(value, top, err, u3, r0 + r1 + r2 - t1, 7real * err, q2, t2, err);
}

/// A steady sound keeps coming out at the filter's gain for steady sounds.
pub proof fn steady_sounds_stay<S: Sample>(
    value: spec_fn(S) -> real,
    top: real,
    err: real,
    s: BiquadState<S>,
    x: S,
    c: BiquadCoeffs<S>,
    gain: real,
    slack: real,
)
    requires
        reads(value, top, err),
        top >= 4096real,
        err <= 1real,
        small_coeffs(value, c),
        small_state(value, s),
        small(value, x, 8real),
        steady_gain(value, c, gain, slack),
        value(s.x1) == value(x),
        value(s.x2) == value(x),
        value(s.y1) == gain * value(x),
        value(s.y2) == gain * value(x),
    ensures
        about(value, s.output(x, c), gain * value(x), 9real * err + 8real * slack),
{
    output_reads(value, top, err, s, x, c);
    let v = value(x);
    let y = gain * v;
    let (b0, b1, b2) = (value(c.b0), value(c.b1), value(c.b2));
    let (a1, a2) = (value(c.a1), value(c.a2));
    let off = b0 + b1 + b2 - gain * (1real + a1 + a2);
    within_product(off, v, slack, 8real);
    spread(b0 + b1 + b2, gain * (1real + a1 + a2), v);
    spread(b0 + b1, b2, v);
    spread(b0, b1, v);
    regroup(gain, 1real + a1 + a2, v);
    regroup(1real + a1 + a2, v, 0real);
    regroup(gain, v, 1real + a1 + a2);
    spread(1real + a1, a2, y);
    spread(1real, a1, y);
    regroup(1real + a1 + a2, y, 0real);
    regroup(a1, y, 0real);
    regroup(a2, y, 0real);
    regroup(slack, 8real, 0real);
    assert(off * v == b0 * v + b1 * v + b2 * v - (y + a1 * y + a2 * y));
}

/// The fastest sound keeps coming out at the filter's gain for it.
pub proof fn the_fastest_sound_stays<S: Sample>(
    value: spec_fn(S) -> real,
    top: real,
    err: real,
    s: BiquadState<S>,
    x: S,
    c: BiquadCoeffs<S>,
    gain: real,
    slack: real,
)
    requires
        reads(value, top, err),
        top >= 4096real,
        err <= 1real,
        small_coeffs(value, c),
        small_state(value, s),
        small(value, x, 8real),
        fastest_gain(value, c, gain, slack),
        value(s.x1) == -value(x),
        value(s.x2) == value(x),
        value(s.y1) == -(gain * value(x)),
        value(s.y2) == gain * value(x),
    ensures
        about(value, s.output(x, c), gain * value(x), 9real * err + 8real * slack),
{
    output_reads(value, top, err, s, x, c);
    let v = value(x);
    let y = gain * v;
    let (b0, b1, b2) = (value(c.b0), value(c.b1), value(c.b2));
    let (a1, a2) = (value(c.a1), value(c.a2));
    let off = b0 - b1 + b2 - gain * (1real - a1 + a2);
    within_product(off, v, slack, 8real);
    spread(b0 - b1 + b2, gain * (1real - a1 + a2), v);
    spread(b0 - b1, b2, v);
    spread(b0, b1, v);
    regroup(gain, 1real - a1 + a2, v);
    regroup(1real - a1 + a2, v, 0real);
    regroup(gain, v, 1real - a1 + a2);
    spread(1real - a1, a2, y);
    spread(1real, a1, y);
    regroup(1real - a1 + a2, y, 0real);
    regroup(a1, y, 0real);
    regroup(a2, y, 0real);
    regroup(slack, 8real, 0real);
    spread(v, 0real, b1);
    spread(y, 0real, a1);
    assert(off * v == b0 * v - b1 * v + b2 * v - (y - a1 * y + a2 * y));
}

/// A filter that changes nothing gives out what goes in, as long as it has done
/// so before: `past` is how far it was off.
pub proof fn flat_filters_are_transparent<S: Sample>(
    value: spec_fn(S) -> real,
    top: real,
    err: real,
    s: BiquadState<S>,
    x: S,
    c: BiquadCoeffs<S>,
    slack: real,
    past: real,
)
    requires
        reads(value, top, err),
        top >= 4096real,
        err <= 1real,
        small_coeffs(value, c),
        small_state(value, s),
        small(value, x, 8real),
        changes_nothing(value, c, slack),
        apart(value(s.y1), value(s.x1)) <= past,
        apart(value(s.y2), value(s.x2)) <= past,
    ensures
        about(value, s.output(x, c), value(x), 9real * err + 24real * slack + 128real * past),
{
    output_reads(value, top, err, s, x, c);
    let (v, x1, x2) = (value(x), value(s.x1), value(s.x2));
    let (d1, d2) = (value(s.y1) - x1, value(s.y2) - x2);
    let (a1, a2) = (value(c.a1), value(c.a2));
    let (f0, f1, f2) = (value(c.b0) - 1real, value(c.b1) - a1, value(c.b2) - a2);
    spread(1real, f0, v);
    spread(a1, f1, x1);
    spread(a2, f2, x2);
    spread(x1, d1, a1);
    spread(x2, d2, a2);
    within_product(f0, v, slack, 8real);
    within_product(f1, x1, slack, 8real);
    within_product(f2, x2, slack, 8real);
    within_product(a1, d1, 64real, past);
    within_product(a2, d2, 64real, past);
    regroup(slack, 8real, 0real);
}

/// The idle filter gives out what goes in, whatever it remembers.
pub proof fn idle_filters_pass_everything<S: Sample>(s: BiquadState<S>, x: S)
    requires
        real_like::<S>(),
        finite(x),
        finite(s.x1),
        finite(s.x2),
        finite(s.y1),
        finite(s.y2),
    ensures
        same(s.output(x, BiquadCoeffs::<S>::identity_spec()), x),
{
    let zero = num::<S>(0);
    let p = num::<S>(1).mul_spec(x);
    assert(finite(zero) && same(p, x));
    let (q1, q2) = (zero.mul_spec(s.x1), zero.mul_spec(s.x2));
    let (r1, r2) = (zero.mul_spec(s.y1), zero.mul_spec(s.y2));
    plus_nothing(p, x, q1);
    plus_nothing(p.add_spec(q1), x, q2);
    minus_nothing(p.add_spec(q1).add_spec(q2), x, r1);
    minus_nothing(p.add_spec(q1).add_spec(q2).sub_spec(r1), x, r2);
}

proof fn plus_nothing<S: Sample>(a: S, x: S, z: S)
    requires
        real_like::<S>(),
        finite(x),
        same(a, x),
        same(z, num(0)),
    ensures
        same(a.add_spec(z), x),
{
    let zero = num::<S>(0);
    assert(finite(zero));
    assert(le(a, x) && le(x, a) && le(z, zero) && le(zero, z));
    assert(finite(a) && finite(z));
    assert(le(a.add_spec(z), x.add_spec(z)) && le(x.add_spec(z), a.add_spec(z)));
    assert(le(x.add_spec(z), x.add_spec(zero)) && le(x.add_spec(zero), x.add_spec(z)));
    assert(same(x.add_spec(zero), x));
}

proof fn minus_nothing<S: Sample>(a: S, x: S, z: S)
    requires
        real_like::<S>(),
        finite(x),
        same(a, x),
        same(z, num(0)),
    ensures
        same(a.sub_spec(z), x),
{
    let zero = num::<S>(0);
    assert(finite(zero));
    assert(le(a, x) && le(x, a) && le(z, zero) && le(zero, z));
    assert(finite(a) && finite(z));
    assert(le(a.sub_spec(z), x.sub_spec(z)) && le(x.sub_spec(z), a.sub_spec(z)));
    assert(le(x.sub_spec(z), x.sub_spec(zero)) && le(x.sub_spec(zero), x.sub_spec(z)));
    assert(same(x.sub_spec(zero), x));
}

/// At the start of the way from one filter to another there is the one, and at
/// its end the other.
pub proof fn blends_start_and_end_where_they_should<S: Sample>(
    value: spec_fn(S) -> real,
    top: real,
    err: real,
    a: BiquadCoeffs<S>,
    b: BiquadCoeffs<S>,
    t: S,
)
    requires
        reads(value, top, err),
        top >= 4096real,
        err <= 1real,
        small_coeffs(value, a),
        small_coeffs(value, b),
        finite(t),
        value(t) == 0real || value(t) == 1real,
    ensures
        ({
            let r = a.blend_spec(b, t);
            let goal = if value(t) == 0real {
                a
            } else {
                b
            };
            &&& about(value, r.b0, value(goal.b0), 4real * err)
            &&& about(value, r.b1, value(goal.b1), 4real * err)
            &&& about(value, r.b2, value(goal.b2), 4real * err)
            &&& about(value, r.a1, value(goal.a1), 4real * err)
            &&& about(value, r.a2, value(goal.a2), 4real * err)
        }),
{
    one_blend(value, top, err, a.b0, b.b0, t);
    one_blend(value, top, err, a.b1, b.b1, t);
    one_blend(value, top, err, a.b2, b.b2, t);
    one_blend(value, top, err, a.a1, b.a1, t);
    one_blend(value, top, err, a.a2, b.a2, t);
}

proof fn one_blend<S: Sample>(
    value: spec_fn(S) -> real,
    top: real,
    err: real,
    a: S,
    b: S,
    t: S,
)
    requires
        reads(value, top, err),
        top >= 4096real,
        err <= 1real,
        small(value, a, 64real),
        small(value, b, 64real),
        finite(t),
        value(t) == 0real || value(t) == 1real,
    ensures
        about(
            value,
            a.add_spec(b.sub_spec(a).mul_spec(t)),
            if value(t) == 0real {
                value(a)
            } else {
                value(b)
            },
            4real * err,
        ),
{
    let (x, y, s) = (value(a), value(b), value(t));
    about_difference(value, top, err, b, y, 0real, a, x, 0real);
    let d = b.sub_spec(a);
    let dv = value(d);
    let p = if s == 0real {
        0real
    } else {
        dv
    };
    assert(dv * s == p) by {
        if s == 0real {
            assert(dv * 0real == 0real);
        } else {
            assert(dv * 1real == dv);
        }
    }
    let m = d.mul_spec(t);
    assert(about(value, m, p, err));
    about_sum(value, top, err, a, x, 0real, m, p, err);
}

} // verus!
