//! How speed and pitch go together.

use vstd::prelude::*;
use vstd::std_specs::ops::MulSpec;

use crate::dsp::pitch_shift::{stretch_for, stretched_frames, MAX_STRETCHED_FRAMES};
use crate::dsp::stretch::laws::ceilings_are_first;
use crate::reading::{
    about, apart, product_from_zero, quotient_times_divisor, reads, regroup, spread, within_product,
    within_real,
};
use crate::sample::{finite, lt, num, Sample};

verus! {

/// The stretch for a pitch and a speed is as much longer as the pitch is higher
/// and the speed lower: times the speed, it is the pitch. So the resampler, which
/// undoes the pitch, leaves the length that the speed asks for.
pub proof fn stretches_make_room_for_the_pitch<S: Sample>(
    value: spec_fn(S) -> real,
    top: real,
    err: real,
    pitch_factor: S,
    speed: S,
)
    requires
        reads(value, top, err),
        top >= 64real,
        finite(pitch_factor),
        0real <= value(pitch_factor) <= 4real,
        finite(speed),
        1real / 8real <= value(speed) <= 4real,
    ensures
        finite(stretch_for(pitch_factor, speed)),
        apart(value(stretch_for(pitch_factor, speed)) * value(speed), value(pitch_factor)) <= 4real
            * err,
{
    let (p, s) = (value(pitch_factor), value(speed));
    quotient_times_divisor(p, s);
    let q = p / s;
    let rest = s - 1real / 8real;
    spread(s, 1real / 8real, q);
    regroup(q, rest, 0real);
    regroup(q, s, 0real);
    assert(within_real(q, 64real)) by {
        if q > 64real {
            product_from_zero(q, rest);
        } else if q < -64real {
            product_from_zero(-q, rest);
            spread(q, 0real, rest);
        }
    }
    let off = value(stretch_for(pitch_factor, speed)) - q;
    within_product(off, s, err, 4real);
    spread(q, off, s);
    regroup(err, 4real, 0real);
}

/// A chunk asks for as many stretched frames as it has, times the stretch,
/// rounded up.
pub proof fn chunks_ask_for_their_stretch<S: Sample>(
    value: spec_fn(S) -> real,
    top: real,
    err: real,
    stretch: S,
)
    requires
        reads(value, top, err),
        top >= 32768real,
        finite(stretch),
        0real <= value(stretch) <= 16real,
    ensures
        ({
            let n = stretched_frames(stretch);
            &&& 0 <= n <= MAX_STRETCHED_FRAMES
            &&& n < MAX_STRETCHED_FRAMES ==> 1024real * value(stretch) - err <= n as real
            &&& n > 0 ==> 1024real * value(stretch) + err > (n - 1) as real
        }),
{
    let x = num::<S>(1024).mul_spec(stretch);
    assert(value(num::<S>(1024)) == 1024real);
    assert(about(value, x, 1024real * value(stretch), err));
    ceilings_are_first(x, 0, MAX_STRETCHED_FRAMES as int);
    let n = stretched_frames(stretch);
    let here = num::<S>(n as i16);
    let before = num::<S>((n - 1) as i16);
    assert(finite(here) && value(here) == n as real);
    if n < MAX_STRETCHED_FRAMES {
        assert(!lt(here, x));
    }
    if n > 0 {
        assert(finite(before) && value(before) == (n - 1) as real);
        assert(lt(before, x));
    }
}

} // verus!
