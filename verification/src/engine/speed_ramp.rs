//! Speeding up, or slowing down, a little with every few passes of a loop.

use vstd::prelude::*;
use vstd::std_specs::ops::{AddSpec, DivSpec, MulSpec, SubSpec};

use crate::sample::{
    finite, is_finite, is_near, larger, larger_of, le, lt, near, num, real_like, same, smaller,
    smaller_of, total_arithmetic, whole, Sample,
};

pub mod laws;

verus! {

/// What one step of the ramp is counted in.
#[derive(Clone, Copy, Debug, PartialEq, Eq, Structural)]
pub enum StepUnit {
    /// Hundredths of the original speed.
    Percent,
    /// Beats per minute of the track's own tempo.
    Bpm,
}

/// What the user can set on the speed ramp.
#[derive(Clone, Copy, Debug, PartialEq)]
pub struct SpeedRampSettings<S> {
    pub enabled: bool,
    /// Where the ramp ends.
    pub target_speed: S,
    pub step_unit: StepUnit,
    /// How far one step goes, whichever the direction.
    pub step_amount: S,
    /// How many passes of the loop come to one step.
    pub passes_per_step: u32,
}

impl<S: Sample> SpeedRampSettings<S> {
    /// Off; five percent every other pass, towards the original speed.
    pub open spec fn initial() -> SpeedRampSettings<S> {
        SpeedRampSettings {
            enabled: false,
            target_speed: num(1),
            step_unit: StepUnit::Percent,
            step_amount: num(5),
            passes_per_step: 2,
        }
    }

    /// The settings of a ramp that nobody has touched.
    pub fn defaults() -> (r: SpeedRampSettings<S>)
        requires
            total_arithmetic::<S>(),
        ensures
            r == Self::initial(),
    {
        SpeedRampSettings {
            enabled: false,
            target_speed: whole(1),
            step_unit: StepUnit::Percent,
            step_amount: whole(5),
            passes_per_step: 2,
        }
    }

    /// One step as a change of the speed. A step that makes no sense is none.
    pub open spec fn step(self, source_bpm: S) -> S {
        if !finite(self.step_amount) || le(self.step_amount, num(0)) {
            num(0)
        } else {
            match self.step_unit {
                StepUnit::Percent => self.step_amount.div_spec(num(100)),
                StepUnit::Bpm => if !finite(source_bpm) || le(source_bpm, num(0)) {
                    num(0)
                } else {
                    self.step_amount.div_spec(source_bpm)
                },
            }
        }
    }

    /// How many passes come to one step, at least one.
    pub open spec fn passes(self) -> int {
        if self.passes_per_step == 0 {
            1
        } else {
            self.passes_per_step as int
        }
    }

    /// The speed after one step from `current`, or none where the speed
    /// stays: it is at the target already, or there is no sensible step.
    pub open spec fn next_speed(self, current: S, source_bpm: S) -> Option<S> {
        let target = self.target_speed;
        let delta = self.step(source_bpm);
        if !finite(current) || !finite(target) || near(target, current, speed_tolerance()) || le(
            delta,
            num(0),
        ) {
            None
        } else if lt(num(0), target.sub_spec(current)) {
            Some(smaller(current.add_spec(delta), target))
        } else {
            Some(larger(current.sub_spec(delta), target))
        }
    }
}

/// Speeds closer than a millionth are the same.
pub open spec fn speed_tolerance<S: Sample>() -> S {
    num::<S>(1).div_spec(num::<S>(1000).mul_spec(num(1000)))
}

/// One step as a change of the speed, given the tempo of the track.
pub fn step_in_speed_units<S: Sample>(settings: &SpeedRampSettings<S>, source_bpm: S) -> (r: S)
    requires
        total_arithmetic::<S>(),
    ensures
        r == settings.step(source_bpm),
{
    let zero: S = whole(0);
    if !is_finite(settings.step_amount) || settings.step_amount <= zero {
        return zero;
    }
    match settings.step_unit {
        StepUnit::Percent => settings.step_amount / whole(100),
        StepUnit::Bpm => {
            if !is_finite(source_bpm) || source_bpm <= zero {
                return zero;
            }
            settings.step_amount / source_bpm
        },
    }
}

/// Counts one pass of the loop and, where it completes a step, gives the
/// speed to go on with.
pub fn advance_speed_ramp<S: Sample>(
    settings: &SpeedRampSettings<S>,
    passes_since_step: &mut u32,
    current: S,
    source_bpm: S,
) -> (r: Option<S>)
    requires
        total_arithmetic::<S>(),
    ensures
        ({
            let (passes, step) = count_pass(*settings, *old(passes_since_step));
            &&& *final(passes_since_step) == passes
            &&& r == if step {
                settings.next_speed(current, source_bpm)
            } else {
                None
            }
        }),
{
    if !settings.enabled {
        return None;
    }
    *passes_since_step = passes_since_step.saturating_add(1);
    let needed: u32 = if settings.passes_per_step == 0 {
        1
    } else {
        settings.passes_per_step
    };
    if *passes_since_step < needed {
        return None;
    }
    *passes_since_step = 0;
    let target: S = settings.target_speed;
    if !is_finite(current) || !is_finite(target) {
        return None;
    }
    let tolerance: S = whole::<S>(1) / (whole::<S>(1000) * whole(1000));
    if is_near(target, current, tolerance) {
        return None;
    }
    let delta: S = step_in_speed_units(settings, source_bpm);
    let zero: S = whole(0);
    if delta <= zero {
        return None;
    }
    if zero < target - current {
        Some(smaller_of(current + delta, target))
    } else {
        Some(larger_of(current - delta, target))
    }
}

/// One more pass: the passes since the last step, and whether a step is due.
pub open spec fn count_pass<S: Sample>(settings: SpeedRampSettings<S>, passes: u32) -> (
    u32,
    bool,
) {
    if !settings.enabled {
        (passes, false)
    } else if passes < u32::MAX && passes + 1 < settings.passes() {
        ((passes + 1) as u32, false)
    } else {
        (0, true)
    }
}

/// The passes since the last step, `n` passes after the ramp was switched on.
pub open spec fn passes_after<S: Sample>(settings: SpeedRampSettings<S>, n: nat) -> u32
    decreases n,
{
    if n == 0 {
        0
    } else {
        count_pass(settings, passes_after(settings, (n - 1) as nat)).0
    }
}

/// While the ramp is on, a step is due exactly with every `passes_per_step`th
/// pass of the loop, counted from when the ramp was switched on.
pub proof fn steps_come_evenly<S: Sample>(settings: SpeedRampSettings<S>, n: nat)
    requires
        settings.enabled,
    ensures
        passes_after(settings, n) == n as int % settings.passes(),
        count_pass(settings, passes_after(settings, n)).1 <==> (n as int + 1) % settings.passes()
            == 0,
    decreases n,
{
    let p = settings.passes();
    if n > 0 {
        steps_come_evenly(settings, (n - 1) as nat);
    }
    vstd::arithmetic::div_mod::lemma_small_mod(0, p as nat);
    let m = if n > 0 {
        n - 1
    } else {
        0
    };
    next_remainder(m as int, p);
    next_remainder(n as int, p);
}

proof fn next_remainder(n: int, p: int)
    requires
        0 <= n,
        0 < p,
    ensures
        0 <= n % p < p,
        (n + 1) % p == if n % p + 1 == p {
            0
        } else {
            n % p + 1
        },
{
    vstd::arithmetic::div_mod::lemma_fundamental_div_mod(n, p);
    let q = n / p;
    if n % p + 1 == p {
        assert(n + 1 == (q + 1) * p + 0) by (nonlinear_arith)
            requires
                n == p * q + n % p,
                n % p + 1 == p,
        ;
        vstd::arithmetic::div_mod::lemma_fundamental_div_mod_converse(n + 1, p, q + 1, 0);
    } else {
        assert(n + 1 == q * p + (n % p + 1)) by (nonlinear_arith)
            requires
                n == p * q + n % p,
        ;
        vstd::arithmetic::div_mod::lemma_fundamental_div_mod_converse(n + 1, p, q, n % p + 1);
    }
}

/// No step goes past the target: it ends at the target or on the side it came
/// from.
pub proof fn ramp_stops_at_target<S: Sample>(
    settings: SpeedRampSettings<S>,
    current: S,
    source_bpm: S,
)
    ensures
        match settings.next_speed(current, source_bpm) {
            Some(next) => next == settings.target_speed || if lt(
                num(0),
                settings.target_speed.sub_spec(current),
            ) {
                !lt(settings.target_speed, next)
            } else {
                !lt(next, settings.target_speed)
            },
            None => true,
        },
{
}

/// What one pass of the loop does: a ramp that is off does nothing. One that is
/// on counts the pass, up to `passes_per_step` and then from zero again. Only
/// then may the speed change, and only if it is a finite number away from a
/// finite target by at least the tolerance, and there is a step above zero.
/// The new speed lies between the old one and the target, and no further away
/// than one step.
pub proof fn a_ramp_step_is_bounded<S: Sample>(
    settings: SpeedRampSettings<S>,
    passes: u32,
    current: S,
    source_bpm: S,
)
    requires
        real_like::<S>(),
    ensures
        ({
            let (counted, step) = count_pass(settings, passes);
            let next = settings.next_speed(current, source_bpm);
            let target = settings.target_speed;
            let delta = settings.step(source_bpm);
            &&& !settings.enabled ==> counted == passes && !step
            &&& settings.enabled && passes < u32::MAX ==> counted == if passes + 1
                >= settings.passes() {
                0
            } else {
                passes + 1
            }
            &&& settings.enabled && passes < u32::MAX ==> (step <==> passes + 1
                >= settings.passes())
            &&& next is Some <==> finite(current) && finite(target) && lt(num(0), delta) && !near(
                target,
                current,
                speed_tolerance(),
            )
            &&& next matches Some(new) ==> if lt(current, target) {
                le(current, new) && le(new, target) && le(new, current.add_spec(delta))
            } else {
                le(target, new) && le(new, current) && le(current.sub_spec(delta), new)
            }
        }),
{
    let zero = num::<S>(0);
    let delta = settings.step(source_bpm);
    assert(finite(zero));
    assert(lt(zero, num::<S>(100)));
    // A step is a number, so it is above zero where it is not at most zero.
    assert(same(delta, delta)) by {
        if finite(settings.step_amount) && !le(settings.step_amount, zero) {
            assert(lt(zero, settings.step_amount));
            let divisor = match settings.step_unit {
                StepUnit::Percent => num::<S>(100),
                StepUnit::Bpm => source_bpm,
            };
            if finite(divisor) && lt(zero, divisor) {
                assert(le(zero.div_spec(divisor), settings.step_amount.div_spec(divisor)));
            }
        }
    }
    if let Some(new) = settings.next_speed(current, source_bpm) {
        let target = settings.target_speed;
        assert(lt(zero, delta));
        assert(lt(zero, target.sub_spec(current)) <==> lt(current, target));
        assert(le(current, current.add_spec(delta)));
        assert(le(current.sub_spec(delta), current));
    }
}

} // verus!
