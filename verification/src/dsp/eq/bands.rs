//! What the chain of filters as a whole does, band by band.

use vstd::prelude::*;
use vstd::std_specs::ops::DivSpec;

use crate::dsp::eq::laws::{
    bells_act_at_their_frequency, centre_gain, changes_nothing, fastest_gain,
    flat_bells_change_nothing, reads_filters, steady_gain, usable,
};
use crate::dsp::eq::passes::{
    band_passes_stop_both_ends, high_passes_stop_steady_sounds, low_passes_stop_the_fastest,
};
use crate::dsp::eq::shelves::{high_shelves_act_above, low_shelves_act_below};
use crate::dsp::eq::{active_filters, target_coeffs, EqMode, EqTones, NUM_BANDS};
use crate::sample::{finite, num, Sample};

verus! {

/// All tones can be read, and so can the quality of the shelves.
pub open spec fn usable_tones<S: Sample>(value: spec_fn(S) -> real, tones: EqTones<S>) -> bool {
    forall|i: int| 0 <= i < NUM_BANDS ==> usable(value, #[trigger] tones.bands@[i], tones.shelf_q)
}

/// With no band soloed, every band acts on its own part of the sound by the
/// square of its own amplitude: the first on steady sounds, the last on the
/// fastest ones, and the others at their frequencies.
pub proof fn every_band_acts_on_its_part<S: Sample>(
    value: spec_fn(S) -> real,
    top: real,
    err: real,
    tones: EqTones<S>,
    i: int,
)
    requires
        reads_filters(value, top, err),
        usable_tones(value, tones),
        0 <= i < NUM_BANDS,
    ensures
        ({
            let t = tones.bands@[i];
            let c = target_coeffs(EqMode::Normal, tones)[i];
            let gain = value(t.amp) * value(t.amp);
            &&& active_filters(EqMode::Normal) == NUM_BANDS
            &&& target_coeffs(EqMode::Normal, tones).len() == NUM_BANDS
            &&& i == 0 ==> steady_gain(value, c, gain, 6000real * err) && fastest_gain(
                value,
                c,
                1real,
                6000real * err,
            )
            &&& 0 < i < NUM_BANDS - 1 ==> centre_gain(
                value,
                c,
                value(t.cos_w),
                gain,
                1000real * err,
            ) && steady_gain(value, c, 1real, 1000real * err) && fastest_gain(
                value,
                c,
                1real,
                1000real * err,
            )
            &&& i == NUM_BANDS - 1 ==> fastest_gain(value, c, gain, 6000real * err) && steady_gain(
                value,
                c,
                1real,
                6000real * err,
            )
        }),
{
    let t = tones.bands@[i];
    assert(usable(value, t, tones.shelf_q));
    if i == 0 {
        low_shelves_act_below(value, top, err, t, tones.shelf_q);
    } else if i == NUM_BANDS - 1 {
        high_shelves_act_above(value, top, err, t, tones.shelf_q);
    } else {
        one_is_a_quality::<S>(value, top, err);
        bells_act_at_their_frequency(value, top, err, t, num(1));
    }
}

/// With no band soloed and every band at 0 dB, no filter changes anything.
pub proof fn a_flat_equaliser_changes_nothing<S: Sample>(
    value: spec_fn(S) -> real,
    top: real,
    err: real,
    tones: EqTones<S>,
    i: int,
)
    requires
        reads_filters(value, top, err),
        usable_tones(value, tones),
        0 <= i < NUM_BANDS,
        value(tones.bands@[i].amp) == 1real,
    ensures
        changes_nothing(value, target_coeffs(EqMode::Normal, tones)[i], 6000real * err),
{
    let t = tones.bands@[i];
    assert(usable(value, t, tones.shelf_q));
    if i == 0 {
        low_shelves_act_below(value, top, err, t, tones.shelf_q);
    } else if i == NUM_BANDS - 1 {
        high_shelves_act_above(value, top, err, t, tones.shelf_q);
    } else {
        one_is_a_quality::<S>(value, top, err);
        flat_bells_change_nothing(value, top, err, t, num(1));
    }
}

/// A soloed band is heard alone: below it the sound stops, and above it, but for
/// the lowest band, which keeps steady sounds, and the highest, which keeps the
/// fastest ones.
pub proof fn a_soloed_band_is_heard_alone<S: Sample>(
    value: spec_fn(S) -> real,
    top: real,
    err: real,
    tones: EqTones<S>,
    i: usize,
)
    requires
        reads_filters(value, top, err),
        usable_tones(value, tones),
        i < NUM_BANDS,
    ensures
        ({
            let t = tones.bands@[i as int];
            let c = target_coeffs(EqMode::Solo(i), tones)[0];
            let slack = 1000real * err;
            &&& active_filters(EqMode::Solo(i)) == 1
            &&& i == 0 ==> steady_gain(value, c, 1real, slack) && fastest_gain(
                value,
                c,
                0real,
                slack,
            )
            &&& 0 < i < NUM_BANDS - 1 ==> steady_gain(value, c, 0real, slack) && fastest_gain(
                value,
                c,
                0real,
                slack,
            ) && centre_gain(value, c, value(t.cos_w), 1real, slack)
            &&& i == NUM_BANDS - 1 ==> steady_gain(value, c, 0real, slack) && fastest_gain(
                value,
                c,
                1real,
                slack,
            )
        }),
{
    let t = tones.bands@[i as int];
    assert(usable(value, t, tones.shelf_q));
    if i == 0 {
        low_passes_stop_the_fastest(value, top, err, t, tones.shelf_q);
    } else if i == NUM_BANDS - 1 {
        high_passes_stop_steady_sounds(value, top, err, t, tones.shelf_q);
    } else {
        one_is_a_quality::<S>(value, top, err);
        band_passes_stop_both_ends(value, top, err, t, num::<S>(7).div_spec(num(10)));
    }
}

/// One and seven tenths are qualities that a filter can have.
proof fn one_is_a_quality<S: Sample>(value: spec_fn(S) -> real, top: real, err: real)
    requires
        reads_filters(value, top, err),
    ensures
        finite(num::<S>(1)) && value(num::<S>(1)) == 1real,
        finite(num::<S>(7).div_spec(num(10))),
        1real / 2real <= value(num::<S>(7).div_spec(num(10))) <= 16real,
{
    reveal(reads_filters);
    assert(value(num::<S>(7)) == 7real && value(num::<S>(10)) == 10real);
    assert(value(num::<S>(1)) == 1real);
}

} // verus!
