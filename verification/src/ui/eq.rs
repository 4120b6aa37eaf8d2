//! The equaliser panel.

use vstd::prelude::*;

use crate::dsp::eq::{BandSettings, EqSettings, NUM_BANDS};
use crate::sample::{clamp_to, clamped, num, total_arithmetic, whole, Sample};

verus! {

/// The most that a band is raised or lowered, in decibels.
pub const MAX_GAIN_DB: i16 = 24;

/// Sets all bands to 0 dB and ends every solo.
pub fn flatten<S: Sample>(settings: &mut EqSettings<S>)
    requires
        total_arithmetic::<S>(),
    ensures
        final(settings).enabled == old(settings).enabled,
        forall|i: int|
            0 <= i < NUM_BANDS ==> #[trigger] final(settings).bands@[i]
                == BandSettings::<S>::initial(),
{
    let band: BandSettings<S> = BandSettings::defaults();
    settings.bands = [band, band, band, band, band];
}

/// Solos a band, or ends its solo. No other band stays soloed.
pub fn toggle_solo<S: Sample>(settings: &mut EqSettings<S>, band: usize)
    requires
        band < NUM_BANDS,
    ensures
        final(settings).enabled == old(settings).enabled,
        forall|i: int|
            0 <= i < NUM_BANDS ==> #[trigger] final(settings).bands@[i] == (BandSettings {
                gain_db: old(settings).bands@[i].gain_db,
                solo: i == band && !old(settings).bands@[i].solo,
            }),
{
    let solo: bool = !settings.bands[band].solo;
    let mut i: usize = 0;
    while i < NUM_BANDS
        invariant
            i <= NUM_BANDS,
            band < NUM_BANDS,
            solo == !old(settings).bands@[band as int].solo,
            settings.enabled == old(settings).enabled,
            forall|j: int|
                0 <= j < i ==> #[trigger] settings.bands@[j] == (BandSettings {
                    gain_db: old(settings).bands@[j].gain_db,
                    solo: j == band && !old(settings).bands@[j].solo,
                }),
            forall|j: int|
                i <= j < NUM_BANDS ==> #[trigger] settings.bands@[j] == old(settings).bands@[j],
        decreases NUM_BANDS - i,
    {
        let gain_db: S = settings.bands[i].gain_db;
        settings.bands[i] = BandSettings { gain_db, solo: i == band && solo };
        i = i + 1;
    }
}

/// Brings every band's gain into range.
pub fn clamp_gains<S: Sample>(settings: &mut EqSettings<S>)
    requires
        total_arithmetic::<S>(),
    ensures
        final(settings).enabled == old(settings).enabled,
        forall|i: int|
            0 <= i < NUM_BANDS ==> #[trigger] final(settings).bands@[i] == (BandSettings {
                gain_db: clamped(old(settings).bands@[i].gain_db, num(-24i16), num(24)),
                solo: old(settings).bands@[i].solo,
            }),
{
    let mut i: usize = 0;
    while i < NUM_BANDS
        invariant
            total_arithmetic::<S>(),
            i <= NUM_BANDS,
            settings.enabled == old(settings).enabled,
            forall|j: int|
                0 <= j < i ==> #[trigger] settings.bands@[j] == (BandSettings {
                    gain_db: clamped(old(settings).bands@[j].gain_db, num(-24i16), num(24)),
                    solo: old(settings).bands@[j].solo,
                }),
            forall|j: int|
                i <= j < NUM_BANDS ==> #[trigger] settings.bands@[j] == old(settings).bands@[j],
        decreases NUM_BANDS - i,
    {
        let band: BandSettings<S> = settings.bands[i];
        settings.bands[i] = BandSettings {
            gain_db: clamp_to(band.gain_db, whole(-MAX_GAIN_DB), whole(MAX_GAIN_DB)),
            solo: band.solo,
        };
        i = i + 1;
    }
}

} // verus!
