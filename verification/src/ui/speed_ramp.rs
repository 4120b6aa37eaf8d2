//! The speed-ramp row.

use vstd::prelude::*;
use vstd::std_specs::ops::DivSpec;

use crate::engine::speed_ramp::SpeedRampSettings;
use crate::sample::{clamp_to, clamped, num, total_arithmetic, whole, Sample};

verus! {

/// The settings brought into range: a step from 0.1 to 50, one to 32 passes,
/// and a target from a quarter of the speed to double.
pub open spec fn in_range<S: Sample>(s: SpeedRampSettings<S>) -> SpeedRampSettings<S> {
    SpeedRampSettings {
        step_amount: clamped(s.step_amount, num::<S>(1).div_spec(num(10)), num(50)),
        passes_per_step: if s.passes_per_step < 1 {
            1
        } else if s.passes_per_step > 32 {
            32
        } else {
            s.passes_per_step
        },
        target_speed: clamped(s.target_speed, num::<S>(1).div_spec(num(4)), num(2)),
        ..s
    }
}

/// Brings the settings into range.
pub fn clamp_settings<S: Sample>(settings: &mut SpeedRampSettings<S>)
    requires
        total_arithmetic::<S>(),
    ensures
        *final(settings) == in_range(*old(settings)),
{
    settings.step_amount = clamp_to(settings.step_amount, whole::<S>(1) / whole(10), whole(50));
    settings.passes_per_step = if settings.passes_per_step < 1 {
        1
    } else if settings.passes_per_step > 32 {
        32
    } else {
        settings.passes_per_step
    };
    settings.target_speed = clamp_to(settings.target_speed, whole::<S>(1) / whole(4), whole(2));
}

/// The user moved the speed by hand: that ends a ramp. The result says
/// whether there was one.
pub fn override_by_hand<S: Sample>(settings: &mut SpeedRampSettings<S>) -> (r: bool)
    ensures
        r == old(settings).enabled,
        *final(settings) == (SpeedRampSettings { enabled: false, ..*old(settings) }),
{
    let was: bool = settings.enabled;
    settings.enabled = false;
    was
}

} // verus!
