//! How large the steps of a speed ramp are.

use vstd::prelude::*;
use vstd::std_specs::ops::DivSpec;

use crate::engine::speed_ramp::{SpeedRampSettings, StepUnit};
use crate::reading::{
    apart, product_from_zero, quotient_times_divisor, reads, regroup, spread, within_product,
    within_real,
};
use crate::sample::{finite, le, num, Sample};

verus! {

/// A step in percent is that many hundredths of the original speed, and a step
/// in beats per minute is that share of the original tempo.
pub proof fn steps_are_what_they_say<S: Sample>(
    value: spec_fn(S) -> real,
    top: real,
    err: real,
    settings: SpeedRampSettings<S>,
    source_bpm: S,
)
    requires
        reads(value, top, err),
        top >= 1024real,
        finite(settings.step_amount),
        0real < value(settings.step_amount) <= 1000real,
        !le(settings.step_amount, num(0)),
        finite(source_bpm),
        1real <= value(source_bpm) <= 1000real,
        !le(source_bpm, num(0)),
    ensures
        ({
            let step = settings.step(source_bpm);
            let amount = value(settings.step_amount);
            match settings.step_unit {
                StepUnit::Percent => apart(100real * value(step), amount) <= 100real * err,
                StepUnit::Bpm => apart(value(step) * value(source_bpm), amount) <= 1000real * err,
            }
        }),
{
    let a = value(settings.step_amount);
    let s = value(source_bpm);
    assert(value(num::<S>(100)) == 100real);
    quotient_times_divisor(a, s);
    let q = a / s;
    let rest = s - 1real;
    spread(s, 1real, q);
    regroup(q, rest, 0real);
    regroup(q, s, 0real);
    assert(within_real(q, top)) by {
        if q > top {
            product_from_zero(q, rest);
        } else if q < -top {
            product_from_zero(-q, s);
            spread(q, 0real, s);
        }
    }
    let step = settings.step(source_bpm);
    if settings.step_unit is Bpm {
        let off = value(step) - q;
        within_product(off, s, err, 1000real);
        spread(q, off, s);
        regroup(err, 1000real, 0real);
    } else {
        assert(within_real(a / 100real, top));
    }
}

} // verus!
