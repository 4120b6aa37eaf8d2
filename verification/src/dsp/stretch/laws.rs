//! How far apart the frames of a stretch are.

use vstd::prelude::*;
use vstd::std_specs::ops::{AddSpec, DivSpec, MulSpec, SubSpec};

use crate::dsp::stretch::{
    expected_frames, hop_for, overlap_gain, overlap_power, stretch_at, stretch_step,
    StretchRamp, ADAPTER_MAX_OUTPUT_FRAMES_PER_CHUNK, FRAME_SIZE, MAX_HOP,
};
use crate::reading::{
    about, about_difference, about_product, about_sum, apart, product_from_zero,
    quotient_times_divisor, reads, regroup, spread, within_product, within_real,
};
use crate::sample::{
    ceiling, finite, half, le, lt, nearest, nearest_is_first, num, same, Sample,
};

verus! {

/// A stretch takes so many source frames to a synthesis hop that, times the
/// stretch, they make up the hop: up to half a frame, and as long as there are
/// more than one and less than the most.
pub proof fn hops_times_the_stretch_make_up_the_synthesis_hop<S: Sample>(
    value: spec_fn(S) -> real,
    top: real,
    err: real,
    stretch: S,
)
    requires
        reads(value, top, err),
        top >= 8192real,
        err <= 1real / 16real,
        finite(stretch),
        1real / 8real <= value(stretch) <= 16real,
        forall|x: S| finite(x) ==> same(x, x),
    ensures
        1 <= hop_for(stretch) <= MAX_HOP,
        1 < hop_for(stretch) < MAX_HOP ==> apart(
            (hop_for(stretch) as real) * value(stretch),
            512real,
        ) <= (1real / 2real + 4real * err) * value(stretch),
{
    let s = value(stretch);
    let x = num::<S>(512).div_spec(stretch);
    assert(value(num::<S>(512)) == 512real);
    let exact = 512real / s;
    quotient_times_divisor(512real, s);
    assert(0real <= exact <= 4096real) by {
        let rest = s - 1real / 8real;
        spread(s, 1real / 8real, exact);
        regroup(exact, rest, 0real);
        regroup(exact, s, 0real);
        if exact > 4096real {
            product_from_zero(exact, rest);
        } else if exact < 0real {
            product_from_zero(-exact, s);
            spread(exact, 0real, s);
        }
    }
    assert(about(value, x, exact, err));
    assert(same(x, x));
    let k = nearest(x, 1, MAX_HOP as int);
    nearest_is_first(x, 1, MAX_HOP as int);
    if 1 < k < MAX_HOP {
        half_above(value, top, err, k);
        half_above(value, top, err, k - 1);
        let above = num::<S>(k as i16).add_spec(half::<S>());
        let below = num::<S>((k - 1) as i16).add_spec(half::<S>());
        assert(value(x) < value(above));
        assert(!(value(x) < value(below)));
        let gap = k as real - exact;
        let most = 1real / 2real + 4real * err;
        assert((k - 1) as real == k as real - 1real);
        assert(within_real(gap, most));
        within_product(gap, s, most, s);
        spread(k as real, exact, s);
    }
}

/// Half above a whole number.
proof fn half_above<S: Sample>(value: spec_fn(S) -> real, top: real, err: real, k: int)
    requires
        reads(value, top, err),
        top >= 8192real,
        err <= 1real / 16real,
        0 <= k <= 4096,
    ensures
        about(
            value,
            num::<S>(k as i16).add_spec(half::<S>()),
            k as real + 1real / 2real,
            2real * err,
        ),
{
    let n = num::<S>(k as i16);
    assert(value(n) == k as real);
    assert(value(num::<S>(1)) == 1real && value(num::<S>(2)) == 2real);
    assert(about(value, half::<S>(), 1real / 2real, err));
    about_sum(value, top, err, n, k as real, 0real, half::<S>(), 1real / 2real, err);
}

/// Rounding up gives the first whole number that is not exceeded.
pub proof fn ceilings_are_first<S: Sample>(x: S, lo: int, hi: int)
    requires
        lo <= hi,
    ensures
        lo <= ceiling(x, lo, hi) <= hi,
        ceiling(x, lo, hi) < hi ==> !lt(num::<S>(ceiling(x, lo, hi) as i16), x),
        ceiling(x, lo, hi) > lo ==> lt(num::<S>((ceiling(x, lo, hi) - 1) as i16), x),
    decreases hi - lo,
{
    if lo < hi && lt(num::<S>(lo as i16), x) {
        ceilings_are_first(x, lo + 1, hi);
    }
}

/// A chunk is expected to give as many frames as it takes times the ratio,
/// rounded up.
pub proof fn chunks_give_their_ratio<S: Sample>(
    value: spec_fn(S) -> real,
    top: real,
    err: real,
    ratio: S,
)
    requires
        reads(value, top, err),
        top >= 8192real,
        err <= 1real / 16real,
        finite(ratio),
        0real <= value(ratio) <= 8real,
    ensures
        ({
            let n = expected_frames(ratio);
            &&& 1 <= n <= ADAPTER_MAX_OUTPUT_FRAMES_PER_CHUNK
            &&& n < ADAPTER_MAX_OUTPUT_FRAMES_PER_CHUNK ==> 1024real * value(ratio) - err
                <= n as real
            &&& n > 1 ==> 1024real * value(ratio) + err > (n - 1) as real
        }),
{
    let x = num::<S>(1024).mul_spec(ratio);
    assert(value(num::<S>(1024)) == 1024real);
    assert(about(value, x, 1024real * value(ratio), err));
    ceilings_are_first(x, 1, ADAPTER_MAX_OUTPUT_FRAMES_PER_CHUNK as int);
    let n = expected_frames(ratio);
    let here = num::<S>(n as i16);
    let before = num::<S>((n - 1) as i16);
    assert(finite(here) && value(here) == n as real);
    assert(finite(before) && value(before) == (n - 1) as real);
    if n < ADAPTER_MAX_OUTPUT_FRAMES_PER_CHUNK {
        assert(!lt(here, x));
    }
    if n > 1 {
        assert(lt(before, x));
    }
}

/// A window that was divided by what its quarters add up to adds up to one.
pub proof fn scaled_windows_add_up_to_one<S: Sample>(
    value: spec_fn(S) -> real,
    top: real,
    err: real,
    window: Seq<S>,
)
    requires
        reads(value, top, err),
        top >= 64real,
        err <= 1real / 64real,
        window.len() == FRAME_SIZE,
        forall|i: int|
            0 <= i < FRAME_SIZE ==> finite(#[trigger] window[i]) && within_real(
                value(window[i]),
                1real,
            ),
        value(overlap_gain(window)) >= 1real / 4real,
    ensures
        ({
            let g = overlap_gain(window);
            let scaled = window.map_values(|w: S| w.div_spec(g));
            apart(
                (value(scaled[0]) + value(scaled[512]) + value(scaled[1024]) + value(scaled[1536]))
                    * value(g),
                value(g),
            ) <= 24real * err
        }),
{
    gains_are_of_the_quarters(value, top, err, window);
    let g = overlap_gain(window);
    assert(finite(window[0]) && finite(window[512]) && finite(window[1024]));
    assert(finite(window[1536]));
    let scaled = window.map_values(|w: S| w.div_spec(g));
    divided_back(value, top, err, window[0], g);
    divided_back(value, top, err, window[512], g);
    divided_back(value, top, err, window[1024], g);
    divided_back(value, top, err, window[1536], g);
    let gv = value(g);
    let (p, q, r, s) = (
        value(scaled[0]),
        value(scaled[512]),
        value(scaled[1024]),
        value(scaled[1536]),
    );
    spread(p + q + r, s, gv);
    spread(p + q, r, gv);
    spread(p, q, gv);
}

/// What `overlap_gain` adds up is the window at the four places where a frame
/// begins.
pub proof fn gains_are_of_the_quarters<S: Sample>(
    value: spec_fn(S) -> real,
    top: real,
    err: real,
    window: Seq<S>,
)
    requires
        reads(value, top, err),
        top >= 64real,
        err <= 1real / 64real,
        window.len() == FRAME_SIZE,
        forall|i: int|
            0 <= i < FRAME_SIZE ==> finite(#[trigger] window[i]) && within_real(
                value(window[i]),
                1real,
            ),
    ensures
        about(
            value,
            overlap_gain(window),
            value(window[0]) + value(window[512]) + value(window[1024]) + value(window[1536]),
            4real * err,
        ),
{
    let (a, b, c, d) = (
        value(window[0]),
        value(window[512]),
        value(window[1024]),
        value(window[1536]),
    );
    let zero = num::<S>(0);
    assert(value(zero) == 0real);
    assert(finite(window[0]) && finite(window[512]) && finite(window[1024]));
    assert(finite(window[1536]));
    about_sum(value, top, err, zero, 0real, 0real, window[1536], d, 0real);
    let t0 = zero.add_spec(window[1536]);
    about_sum(value, top, err, t0, d, err, window[1024], c, 0real);
    let t1 = t0.add_spec(window[1024]);
    about_sum(value, top, err, t1, d + c, 2real * err, window[512], b, 0real);
    let t2 = t1.add_spec(window[512]);
    about_sum(value, top, err, t2, d + c + b, 3real * err, window[0], a, 0real);
}

/// What was divided and is multiplied again comes back.
proof fn divided_back<S: Sample>(value: spec_fn(S) -> real, top: real, err: real, w: S, g: S)
    requires
        reads(value, top, err),
        top >= 64real,
        finite(w),
        within_real(value(w), 1real),
        finite(g),
        1real / 4real <= value(g) <= 5real,
    ensures
        apart(value(w.div_spec(g)) * value(g), value(w)) <= 5real * err,
{
    let (x, y) = (value(w), value(g));
    quotient_times_divisor(x, y);
    let q = x / y;
    let rest = y - 1real / 4real;
    spread(y, 1real / 4real, q);
    regroup(q, rest, 0real);
    regroup(q, y, 0real);
    assert(within_real(q, 4real)) by {
        if q > 4real {
            product_from_zero(q, rest);
        } else if q < -4real {
            product_from_zero(-q, rest);
            spread(q, 0real, rest);
        }
    }
    let off = value(w.div_spec(g)) - q;
    within_product(off, y, err, 5real);
    spread(q, off, y);
    regroup(err, 5real, 0real);
}

/// The squares of a window at the four places where a frame begins are what
/// `overlap_power` adds up.
pub proof fn powers_are_of_the_quarters<S: Sample>(
    value: spec_fn(S) -> real,
    top: real,
    err: real,
    window: Seq<S>,
)
    requires
        reads(value, top, err),
        top >= 64real,
        err <= 1real / 64real,
        window.len() == FRAME_SIZE,
        forall|i: int|
            0 <= i < FRAME_SIZE ==> finite(#[trigger] window[i]) && within_real(
                value(window[i]),
                1real,
            ),
    ensures
        about(
            value,
            overlap_power(window),
            value(window[0]) * value(window[0]) + value(window[512]) * value(window[512]) + value(
                window[1024],
            ) * value(window[1024]) + value(window[1536]) * value(window[1536]),
            8real * err,
        ),
{
    assert(finite(window[0]) && finite(window[512]) && finite(window[1024]));
    assert(finite(window[1536]));
    let (a, b, c, d) = (
        value(window[0]) * value(window[0]),
        value(window[512]) * value(window[512]),
        value(window[1024]) * value(window[1024]),
        value(window[1536]) * value(window[1536]),
    );
    within_product(value(window[0]), value(window[0]), 1real, 1real);
    within_product(value(window[512]), value(window[512]), 1real, 1real);
    within_product(value(window[1024]), value(window[1024]), 1real, 1real);
    within_product(value(window[1536]), value(window[1536]), 1real, 1real);
    let zero = num::<S>(0);
    assert(value(zero) == 0real);
    let s0 = window[1536].mul_spec(window[1536]);
    let s1 = window[1024].mul_spec(window[1024]);
    let s2 = window[512].mul_spec(window[512]);
    let s3 = window[0].mul_spec(window[0]);
    about_sum(value, top, err, zero, 0real, 0real, s0, d, err);
    let t0 = zero.add_spec(s0);
    about_sum(value, top, err, t0, d, 2real * err, s1, c, err);
    let t1 = t0.add_spec(s1);
    about_sum(value, top, err, t1, d + c, 4real * err, s2, b, err);
    let t2 = t1.add_spec(s2);
    about_sum(value, top, err, t2, d + c + b, 6real * err, s3, a, err);
}

/// The stretch that a speed asks for, times the speed, is one: twice as slow is
/// twice as long.
pub proof fn slower_is_longer<S: Sample>(value: spec_fn(S) -> real, top: real, err: real, speed: S)
    requires
        reads(value, top, err),
        top >= 64real,
        err <= 1real / 64real,
        finite(speed),
        5real / 16real <= value(speed) <= 4real,
    ensures
        finite(stretch_at(speed)),
        apart(value(stretch_at(speed)) * value(speed), 1real) <= 5real * err,
{
    let (one, four) = (num::<S>(1), num::<S>(4));
    assert(value(one) == 1real && value(four) == 4real);
    let low = one.div_spec(four);
    assert(about(value, low, 1real / 4real, err));
    assert(!lt(speed, low) && !lt(four, speed));
    divided_back(value, top, err, one, speed);
    quotient_times_divisor(1real, value(speed));
    let (q, s) = (1real / value(speed), value(speed));
    let rest = s - 1real / 4real;
    spread(s, 1real / 4real, q);
    regroup(q, rest, 0real);
    regroup(q, s, 0real);
    assert(within_real(q, 4real)) by {
        if q > 4real {
            product_from_zero(q, rest);
        } else if q < -4real {
            product_from_zero(-q, rest);
            spread(q, 0real, rest);
        }
    }
}

/// Comparisons are those of the real numbers, equality with them.
pub open spec fn reads_order<S: Sample>(value: spec_fn(S) -> real) -> bool {
    forall|a: S, b: S| finite(a) && finite(b) ==> (#[trigger] le(a, b) <==> value(a) <= value(b))
}

/// What a step of the stretch goes by.
proof fn step_parts<S: Sample>(value: spec_fn(S) -> real, top: real, err: real)
    requires
        reads(value, top, err),
        top >= 64real,
        err <= 1real / 1024real,
    ensures
        about(value, stretch_step::<S>(), 1real / 10real, err),
        about(value, stretch_step::<S>().mul_spec(half()), 1real / 20real, 2real * err),
        about(value, num::<S>(0), 0real, 0real),
{
    let zero = num::<S>(0);
    assert(value(zero) == 0real && value(num::<S>(1)) == 1real && value(num::<S>(2)) == 2real);
    assert(value(num::<S>(10)) == 10real);
    let step = stretch_step::<S>();
    let (tenth, h) = (1real / 10real, 1real / 2real);
    product_from_zero(err, 1real / 1024real - err);
    spread(1real / 1024real, err, err);
    about_product(value, top, err, step, tenth, err, tenth, half::<S>(), h, err, h);
}

/// Every step brings the stretch a tenth nearer to its target, or to within half
/// of that.
pub proof fn stretches_go_to_their_target<S: Sample>(
    value: spec_fn(S) -> real,
    top: real,
    err: real,
    ramp: StretchRamp<S>,
)
    requires
        reads(value, top, err),
        reads_order(value),
        top >= 64real,
        err <= 1real / 1024real,
        finite(ramp.target) && within_real(value(ramp.target), 8real),
        finite(ramp.stretch) && within_real(value(ramp.stretch), 8real),
    ensures
        ({
            let next = ramp.advanced();
            let before = apart(value(ramp.target), value(ramp.stretch));
            let after = apart(value(next.target), value(next.stretch));
            &&& next.target == ramp.target
            &&& finite(next.stretch)
            &&& after <= before - 1real / 10real + 4real * err || after <= 1real / 20real + 8real
                * err
        }),
{
    let (t, s) = (value(ramp.target), value(ramp.stretch));
    let zero = num::<S>(0);
    step_parts::<S>(value, top, err);
    let step = stretch_step::<S>();
    let close = step.mul_spec(half());
    let diff = ramp.target.sub_spec(ramp.stretch);
    about_difference(value, top, err, ramp.target, t, 0real, ramp.stretch, s, 0real);
    let minus = zero.sub_spec(diff);
    about_difference(value, top, err, zero, 0real, 0real, diff, t - s, err);
    let next = ramp.advanced();
    if le(diff, close) && le(minus, close) {
        assert(next.stretch == ramp.target);
    } else if lt(zero, diff) {
        about_sum(value, top, err, ramp.stretch, s, 0real, step, 1real / 10real, err);
        assert(next.stretch == ramp.stretch.add_spec(step));
    } else {
        assert(lt(diff, zero));
        about_difference(value, top, err, ramp.stretch, s, 0real, step, 1real / 10real, err);
        assert(next.stretch == ramp.stretch.sub_spec(step));
    }
}

} // verus!
