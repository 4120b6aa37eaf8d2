//! What the output gain does to the sound.

use vstd::prelude::*;
use vstd::std_specs::ops::{DivSpec, MulSpec, SubSpec};

use crate::engine::worker::{gain_tolerance, gained, ramp_gain};
use crate::reading::{
    about, about_sum, product_from_zero, reads, regroup, spread, within_product, within_real,
};
use crate::sample::{count, finite, near, num, real_like, same, Sample};

verus! {

/// Silence stays silent at any gain.
pub proof fn silence_stays_silent<S: Sample>(
    out: Seq<S>,
    channels: int,
    current: S,
    target: S,
    i: int,
)
    requires
        real_like::<S>(),
        channels > 0,
        0 <= i < out.len(),
        out[i] == num::<S>(0),
        finite(target),
        forall|f: nat|
            finite(
                #[trigger] ramp_gain(
                    current,
                    target.sub_spec(current).div_spec(
                        count::<S>((out.len() as int / channels) as nat),
                    ),
                    f,
                ),
            ),
    ensures
        same(gained(out, channels, current, target)[i], num(0)),
{
    let frames = out.len() as int / channels;
    let step = target.sub_spec(current).div_spec(count::<S>(frames as nat));
    assert(finite(num::<S>(0)));
    let g = ramp_gain(current, step, (i / channels) as nat);
    assert(finite(g));
    assert(same(num::<S>(0).mul_spec(g), num(0)));
    assert(same(num::<S>(0).mul_spec(target), num(0)));
}

/// While the gain moves, it goes from where it was by the same step from frame
/// to frame, on all channels of a frame alike.
pub proof fn gains_move_evenly<S: Sample>(
    value: spec_fn(S) -> real,
    top: real,
    err: real,
    out: Seq<S>,
    channels: int,
    current: S,
    target: S,
    i: int,
)
    requires
        reads(value, top, err),
        top >= 64real,
        channels > 0,
        0 <= i < out.len(),
        i / channels < out.len() as int / channels,
        (out.len() as int / channels) as real * err <= 1real / 16real,
        !near(current, target, gain_tolerance()),
        finite(current) && 0real <= value(current) <= 4real,
        finite(target) && 0real <= value(target) <= 4real,
        finite(out[i]) && within_real(value(out[i]), 1real),
        ({
            let frames = out.len() as int / channels;
            let step = target.sub_spec(current).div_spec(count::<S>(frames as nat));
            &&& finite(step)
            &&& within_real(value(step) * frames as real, 5real)
        }),
    ensures
        ({
            let frames = out.len() as int / channels;
            let step = value(target.sub_spec(current).div_spec(count::<S>(frames as nat)));
            let f = i / channels;
            about(
                value,
                gained(out, channels, current, target)[i],
                value(out[i]) * (value(current) + f as real * step),
                (f as real + 1real) * err,
            )
        }),
{
    let frames = out.len() as int / channels;
    let step = target.sub_spec(current).div_spec(count::<S>(frames as nat));
    let f = i / channels;
    vstd::arithmetic::div_mod::lemma_div_pos_is_pos(i, channels);
    ramp_reads(value, top, err, current, step, frames as nat, f as nat);
    let g = ramp_gain(current, step, f as nat);
    let x = out[i];
    let e = f as real * err;
    let goal = value(current) + f as real * value(step);
    part_of(f as real, frames as real, value(step), 5real);
    errors_within(f as real, frames as real, err);
    within_product(value(x), value(g), 1real, 10real);
    let off = value(g) - goal;
    within_product(value(x), off, 1real, e);
    spread(goal, off, value(x));
    spread(f as real, 1real, err);
}

proof fn errors_within(f: real, frames: real, err: real)
    requires
        0real <= f <= frames,
        0real <= err,
        frames * err <= 1real / 16real,
    ensures
        0real <= f * err <= 1real / 16real,
{
    product_from_zero(f, err);
    product_from_zero(frames - f, err);
    spread(frames, f, err);
}

proof fn part_of(f: real, frames: real, step: real, b: real)
    requires
        0real <= f <= frames,
        within_real(step * frames, b),
        0real <= b,
    ensures
        within_real(f * step, b),
{
    regroup(step, frames, 0real);
    spread(frames, f, step);
    if step >= 0real {
        product_from_zero(f, step);
        product_from_zero(frames - f, step);
    } else {
        product_from_zero(f, -step);
        product_from_zero(frames - f, -step);
        spread(step, 0real, f);
        spread(step, 0real, frames - f);
    }
}

proof fn ramp_reads<S: Sample>(
    value: spec_fn(S) -> real,
    top: real,
    err: real,
    from: S,
    step: S,
    frames: nat,
    f: nat,
)
    requires
        reads(value, top, err),
        top >= 64real,
        f <= frames,
        frames as real * err <= 1real / 16real,
        finite(from) && 0real <= value(from) <= 4real,
        finite(step),
        within_real(value(step) * frames as real, 5real),
    ensures
        about(
            value,
            ramp_gain(from, step, f),
            value(from) + f as real * value(step),
            f as real * err,
        ),
    decreases f,
{
    let s = value(step);
    if f == 0 {
        assert(0real * s == 0real && 0real * err == 0real);
    } else {
        let m = (f - 1) as nat;
        ramp_reads(value, top, err, from, step, frames, m);
        let before = ramp_gain(from, step, m);
        let mr = m as real;
        let fr = f as real;
        assert(fr == mr + 1real);
        spread(mr, 1real, s);
        spread(mr, 1real, err);
        part_of(fr, frames as real, s, 5real);
        errors_within(mr, frames as real, err);
        about_sum(value, top, err, before, value(from) + mr * s, mr * err, step, s, 0real);
    }
}

/// A gain that has settled multiplies every sample alike, and leaves them as
/// they are at one.
pub proof fn settled_gains_multiply<S: Sample>(
    out: Seq<S>,
    channels: int,
    current: S,
    target: S,
    i: int,
)
    requires
        channels > 0,
        0 <= i < out.len(),
        channels <= out.len(),
        near(current, target, gain_tolerance()),
    ensures
        gained(out, channels, current, target).len() == out.len(),
        near(target, num(1), gain_tolerance()) ==> gained(out, channels, current, target)[i]
            == out[i],
        !near(target, num(1), gain_tolerance()) ==> gained(out, channels, current, target)[i]
            == out[i].mul_spec(target),
{
    vstd::arithmetic::div_mod::lemma_div_is_ordered(channels, out.len() as int, channels);
    vstd::arithmetic::div_mod::lemma_div_basics(channels);
}

} // verus!
