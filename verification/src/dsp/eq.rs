//! A five-band equaliser with per-band solo.
//!
//! With no band soloed, five second-order filters run one after the other:
//! a low shelf, three bells and a high shelf. A soloed band replaces the whole
//! chain by one filter that lets only that band through.

use vstd::prelude::*;
use vstd::std_specs::ops::{AddSpec, DivSpec, MulSpec, SubSpec};

use crate::frames::row_fits;
use crate::sample::{count, count_of, half, lt, num, total_arithmetic, whole, Sample};

pub mod bands;
pub mod laws;
pub mod passes;
pub mod runs;
pub mod shelves;

verus! {

/// How many bands there are.
pub const NUM_BANDS: usize = 5;

/// What the user can set on one band.
#[derive(Clone, Copy, Debug, PartialEq)]
pub struct BandSettings<S> {
    pub gain_db: S,
    pub solo: bool,
}

impl<S: Sample> BandSettings<S> {
    /// A band at 0 dB, not soloed.
    pub open spec fn initial() -> BandSettings<S> {
        BandSettings { gain_db: num(0), solo: false }
    }

    /// A band that leaves the sound as it is.
    pub fn defaults() -> (r: BandSettings<S>)
        requires
            total_arithmetic::<S>(),
        ensures
            r == Self::initial(),
    {
        BandSettings { gain_db: whole(0), solo: false }
    }
}

/// What the user can set on the equaliser.
#[derive(Clone, Copy, Debug, PartialEq)]
pub struct EqSettings<S> {
    pub enabled: bool,
    pub bands: [BandSettings<S>; 5],
}

impl<S: Sample> EqSettings<S> {
    /// Switched off, with every band at 0 dB.
    pub open spec fn is_initial(self) -> bool {
        &&& !self.enabled
        &&& forall|i: int| 0 <= i < NUM_BANDS ==> #[trigger] self.bands@[i]
            == BandSettings::<S>::initial()
    }

    /// The settings of an equaliser that nobody has touched.
    pub fn defaults() -> (r: EqSettings<S>)
        requires
            total_arithmetic::<S>(),
        ensures
            r.is_initial(),
    {
        let band: BandSettings<S> = BandSettings::defaults();
        EqSettings { enabled: false, bands: [band, band, band, band, band] }
    }
}

/// The coefficients of a second-order filter, scaled so that the output's own
/// is one.
#[derive(Clone, Copy, Debug)]
pub struct BiquadCoeffs<S> {
    pub b0: S,
    pub b1: S,
    pub b2: S,
    pub a1: S,
    pub a2: S,
}

/// What a band's filters are computed from: the cosine and sine of its
/// frequency, and its gain's fourth-root amplitude with the square root of
/// that.
#[derive(Clone, Copy, Debug)]
pub struct Tone<S> {
    pub cos_w: S,
    pub sin_w: S,
    pub amp: S,
    pub sqrt_amp: S,
}

impl<S: Sample> BiquadCoeffs<S> {
    /// The filter that changes nothing.
    pub open spec fn identity_spec() -> BiquadCoeffs<S> {
        BiquadCoeffs { b0: num(1), b1: num(0), b2: num(0), a1: num(0), a2: num(0) }
    }

    /// All six coefficients divided by `a0`.
    pub open spec fn normalised_spec(
        b0: S,
        b1: S,
        b2: S,
        a0: S,
        a1: S,
        a2: S,
    ) -> BiquadCoeffs<S> {
        let inv = num::<S>(1).div_spec(a0);
        BiquadCoeffs {
            b0: b0.mul_spec(inv),
            b1: b1.mul_spec(inv),
            b2: b2.mul_spec(inv),
            a1: a1.mul_spec(inv),
            a2: a2.mul_spec(inv),
        }
    }

    /// Half the width of a filter of quality `q`, in the sine's units.
    pub open spec fn alpha_spec(t: Tone<S>, q: S) -> S {
        t.sin_w.div_spec(num::<S>(2).mul_spec(q))
    }

    /// The filter that changes nothing.
    pub fn identity() -> (r: BiquadCoeffs<S>)
        requires
            total_arithmetic::<S>(),
        ensures
            r == Self::identity_spec(),
    {
        BiquadCoeffs { b0: whole(1), b1: whole(0), b2: whole(0), a1: whole(0), a2: whole(0) }
    }

    fn normalised(b0: S, b1: S, b2: S, a0: S, a1: S, a2: S) -> (r: BiquadCoeffs<S>)
        requires
            total_arithmetic::<S>(),
        ensures
            r == Self::normalised_spec(b0, b1, b2, a0, a1, a2),
    {
        let inv: S = whole::<S>(1) / a0;
        BiquadCoeffs { b0: b0 * inv, b1: b1 * inv, b2: b2 * inv, a1: a1 * inv, a2: a2 * inv }
    }

    /// The low shelf of quality `q`.
    pub open spec fn low_shelf_spec(t: Tone<S>, q: S) -> BiquadCoeffs<S> {
        let a = t.amp;
        let up = a.add_spec(num(1));
        let down = a.sub_spec(num(1));
        let bend = num::<S>(2).mul_spec(t.sqrt_amp).mul_spec(Self::alpha_spec(t, q));
        let minus = up.sub_spec(down.mul_spec(t.cos_w));
        let plus = up.add_spec(down.mul_spec(t.cos_w));
        Self::normalised_spec(
            a.mul_spec(minus.add_spec(bend)),
            num::<S>(2).mul_spec(a).mul_spec(down.sub_spec(up.mul_spec(t.cos_w))),
            a.mul_spec(minus.sub_spec(bend)),
            plus.add_spec(bend),
            num::<S>(-2i16).mul_spec(down.add_spec(up.mul_spec(t.cos_w))),
            plus.sub_spec(bend),
        )
    }

    /// Raises or lowers what lies below the band's frequency.
    pub fn low_shelf(t: Tone<S>, q: S) -> (r: BiquadCoeffs<S>)
        requires
            total_arithmetic::<S>(),
        ensures
            r == Self::low_shelf_spec(t, q),
    {
        let a: S = t.amp;
        let one: S = whole(1);
        let two: S = whole(2);
        let alpha: S = t.sin_w / (two * q);
        let bend: S = two * t.sqrt_amp * alpha;
        let a0: S = (a + one) + (a - one) * t.cos_w + bend;
        Self::normalised(
            a * ((a + one) - (a - one) * t.cos_w + bend),
            two * a * ((a - one) - (a + one) * t.cos_w),
            a * ((a + one) - (a - one) * t.cos_w - bend),
            a0,
            whole::<S>(-2) * ((a - one) + (a + one) * t.cos_w),
            (a + one) + (a - one) * t.cos_w - bend,
        )
    }

    /// The bell of quality `q`.
    pub open spec fn peak_spec(t: Tone<S>, q: S) -> BiquadCoeffs<S> {
        let one = num::<S>(1);
        let alpha = Self::alpha_spec(t, q);
        let slant = num::<S>(-2i16).mul_spec(t.cos_w);
        Self::normalised_spec(
            one.add_spec(alpha.mul_spec(t.amp)),
            slant,
            one.sub_spec(alpha.mul_spec(t.amp)),
            one.add_spec(alpha.div_spec(t.amp)),
            slant,
            one.sub_spec(alpha.div_spec(t.amp)),
        )
    }

    /// Raises or lowers what lies around the band's frequency.
    pub fn peak(t: Tone<S>, q: S) -> (r: BiquadCoeffs<S>)
        requires
            total_arithmetic::<S>(),
        ensures
            r == Self::peak_spec(t, q),
    {
        let one: S = whole(1);
        let alpha: S = t.sin_w / (whole::<S>(2) * q);
        let slant: S = whole::<S>(-2) * t.cos_w;
        Self::normalised(
            one + alpha * t.amp,
            slant,
            one - alpha * t.amp,
            one + alpha / t.amp,
            slant,
            one - alpha / t.amp,
        )
    }

    /// The high shelf of quality `q`.
    pub open spec fn high_shelf_spec(t: Tone<S>, q: S) -> BiquadCoeffs<S> {
        let a = t.amp;
        let up = a.add_spec(num(1));
        let down = a.sub_spec(num(1));
        let bend = num::<S>(2).mul_spec(t.sqrt_amp).mul_spec(Self::alpha_spec(t, q));
        let minus = up.sub_spec(down.mul_spec(t.cos_w));
        let plus = up.add_spec(down.mul_spec(t.cos_w));
        Self::normalised_spec(
            a.mul_spec(plus.add_spec(bend)),
            num::<S>(-2i16).mul_spec(a).mul_spec(down.add_spec(up.mul_spec(t.cos_w))),
            a.mul_spec(plus.sub_spec(bend)),
            minus.add_spec(bend),
            num::<S>(2).mul_spec(down.sub_spec(up.mul_spec(t.cos_w))),
            minus.sub_spec(bend),
        )
    }

    /// Raises or lowers what lies above the band's frequency.
    pub fn high_shelf(t: Tone<S>, q: S) -> (r: BiquadCoeffs<S>)
        requires
            total_arithmetic::<S>(),
        ensures
            r == Self::high_shelf_spec(t, q),
    {
        let a: S = t.amp;
        let one: S = whole(1);
        let two: S = whole(2);
        let alpha: S = t.sin_w / (two * q);
        let bend: S = two * t.sqrt_amp * alpha;
        let a0: S = (a + one) - (a - one) * t.cos_w + bend;
        Self::normalised(
            a * ((a + one) + (a - one) * t.cos_w + bend),
            whole::<S>(-2) * a * ((a - one) + (a + one) * t.cos_w),
            a * ((a + one) + (a - one) * t.cos_w - bend),
            a0,
            two * ((a - one) - (a + one) * t.cos_w),
            (a + one) - (a - one) * t.cos_w - bend,
        )
    }

    /// The low pass of quality `q`.
    pub open spec fn lpf_spec(t: Tone<S>, q: S) -> BiquadCoeffs<S> {
        let one = num::<S>(1);
        let alpha = Self::alpha_spec(t, q);
        let rest = one.sub_spec(t.cos_w);
        Self::normalised_spec(
            rest.mul_spec(half()),
            rest,
            rest.mul_spec(half()),
            one.add_spec(alpha),
            num::<S>(-2i16).mul_spec(t.cos_w),
            one.sub_spec(alpha),
        )
    }

    /// Lets through what lies below the band's frequency.
    pub fn lpf(t: Tone<S>, q: S) -> (r: BiquadCoeffs<S>)
        requires
            total_arithmetic::<S>(),
        ensures
            r == Self::lpf_spec(t, q),
    {
        let one: S = whole(1);
        let half: S = one / whole(2);
        let alpha: S = t.sin_w / (whole::<S>(2) * q);
        let rest: S = one - t.cos_w;
        Self::normalised(
            rest * half,
            rest,
            rest * half,
            one + alpha,
            whole::<S>(-2) * t.cos_w,
            one - alpha,
        )
    }

    /// The high pass of quality `q`.
    pub open spec fn hpf_spec(t: Tone<S>, q: S) -> BiquadCoeffs<S> {
        let one = num::<S>(1);
        let alpha = Self::alpha_spec(t, q);
        let rest = one.add_spec(t.cos_w);
        Self::normalised_spec(
            rest.mul_spec(half()),
            num::<S>(-1i16).mul_spec(rest),
            rest.mul_spec(half()),
            one.add_spec(alpha),
            num::<S>(-2i16).mul_spec(t.cos_w),
            one.sub_spec(alpha),
        )
    }

    /// Lets through what lies above the band's frequency.
    pub fn hpf(t: Tone<S>, q: S) -> (r: BiquadCoeffs<S>)
        requires
            total_arithmetic::<S>(),
        ensures
            r == Self::hpf_spec(t, q),
    {
        let one: S = whole(1);
        let half: S = one / whole(2);
        let alpha: S = t.sin_w / (whole::<S>(2) * q);
        let rest: S = one + t.cos_w;
        Self::normalised(
            rest * half,
            whole::<S>(-1) * rest,
            rest * half,
            one + alpha,
            whole::<S>(-2) * t.cos_w,
            one - alpha,
        )
    }

    /// The band pass of quality `q`.
    pub open spec fn bpf_spec(t: Tone<S>, q: S) -> BiquadCoeffs<S> {
        let one = num::<S>(1);
        let alpha = Self::alpha_spec(t, q);
        Self::normalised_spec(
            alpha,
            num(0),
            num::<S>(-1i16).mul_spec(alpha),
            one.add_spec(alpha),
            num::<S>(-2i16).mul_spec(t.cos_w),
            one.sub_spec(alpha),
        )
    }

    /// Lets through what lies around the band's frequency.
    pub fn bpf(t: Tone<S>, q: S) -> (r: BiquadCoeffs<S>)
        requires
            total_arithmetic::<S>(),
        ensures
            r == Self::bpf_spec(t, q),
    {
        let one: S = whole(1);
        let alpha: S = t.sin_w / (whole::<S>(2) * q);
        Self::normalised(
            alpha,
            whole(0),
            whole::<S>(-1) * alpha,
            one + alpha,
            whole::<S>(-2) * t.cos_w,
            one - alpha,
        )
    }
}

/// What a second-order filter remembers: its last two inputs and outputs.
#[derive(Clone, Copy, Debug)]
pub struct BiquadState<S> {
    pub x1: S,
    pub x2: S,
    pub y1: S,
    pub y2: S,
}

impl<S: Sample> BiquadState<S> {
    /// Silence.
    pub open spec fn silent() -> BiquadState<S> {
        BiquadState { x1: num(0), x2: num(0), y1: num(0), y2: num(0) }
    }

    /// The next output of the filter.
    pub open spec fn output(self, x: S, c: BiquadCoeffs<S>) -> S {
        c.b0.mul_spec(x).add_spec(c.b1.mul_spec(self.x1)).add_spec(
            c.b2.mul_spec(self.x2),
        ).sub_spec(c.a1.mul_spec(self.y1)).sub_spec(c.a2.mul_spec(self.y2))
    }

    /// The memory after one more input and output.
    pub open spec fn shifted(self, x: S, y: S) -> BiquadState<S> {
        BiquadState { x1: x, x2: self.x1, y1: y, y2: self.y1 }
    }

    /// Runs one sample through the filter.
    pub fn process(&mut self, x: S, c: &BiquadCoeffs<S>) -> (y: S)
        requires
            total_arithmetic::<S>(),
        ensures
            y == old(self).output(x, *c),
            *final(self) == old(self).shifted(x, y),
    {
        let y: S = c.b0 * x + c.b1 * self.x1 + c.b2 * self.x2 - c.a1 * self.y1 - c.a2 * self.y2;
        self.x2 = self.x1;
        self.x1 = x;
        self.y2 = self.y1;
        self.y1 = y;
        y
    }
}

/// One sample run through the first `n` filters of a chain: what the filters
/// then remember, and what comes out.
pub open spec fn cascade<S: Sample>(
    states: Seq<BiquadState<S>>,
    coeffs: Seq<BiquadCoeffs<S>>,
    n: nat,
    x: S,
) -> (Seq<BiquadState<S>>, S)
    decreases n,
{
    if n == 0 {
        (states, x)
    } else {
        let k = n - 1;
        let (before, input) = cascade(states, coeffs, k as nat, x);
        let y = before[k].output(input, coeffs[k]);
        (before.update(k, before[k].shifted(input, y)), y)
    }
}

/// What the chain of channel `c` remembers after `f` frames of interleaved
/// samples, where frame `g` is filtered with the coefficients `coeffs(g)`.
pub open spec fn chain_state<S: Sample>(
    start: Seq<BiquadState<S>>,
    buf: Seq<S>,
    channels: int,
    c: int,
    coeffs: spec_fn(int) -> Seq<BiquadCoeffs<S>>,
    active: nat,
    f: nat,
) -> Seq<BiquadState<S>>
    decreases f,
{
    if f == 0 {
        start
    } else {
        let g = f - 1;
        cascade(
            chain_state(start, buf, channels, c, coeffs, active, g as nat),
            coeffs(g),
            active,
            buf[g * channels + c],
        ).0
    }
}

/// What comes out of the chain of channel `c` at frame `f`.
pub open spec fn chain_output<S: Sample>(
    start: Seq<BiquadState<S>>,
    buf: Seq<S>,
    channels: int,
    c: int,
    coeffs: spec_fn(int) -> Seq<BiquadCoeffs<S>>,
    active: nat,
    f: int,
) -> S {
    cascade(
        chain_state(start, buf, channels, c, coeffs, active, f as nat),
        coeffs(f),
        active,
        buf[f * channels + c],
    ).1
}

/// Which filters are to run.
#[derive(Clone, Copy, Debug, PartialEq, Eq, Structural)]
pub enum EqMode {
    Bypass,
    Solo(usize),
    Normal,
}

/// The first soloed band from `i` on.
pub open spec fn first_solo<S>(bands: Seq<BandSettings<S>>, i: int) -> Option<int>
    decreases bands.len() - i,
{
    if i >= bands.len() {
        None
    } else if bands[i].solo {
        Some(i)
    } else {
        first_solo(bands, i + 1)
    }
}

impl<S: Sample> EqSettings<S> {
    /// The mode these settings ask for. Where several bands are soloed, the
    /// first of them is.
    pub open spec fn mode_spec(self) -> EqMode {
        if !self.enabled {
            EqMode::Bypass
        } else {
            match first_solo(self.bands@, 0) {
                Some(i) => EqMode::Solo(i as usize),
                None => EqMode::Normal,
            }
        }
    }

    /// The mode these settings ask for.
    pub fn mode(&self) -> (r: EqMode)
        ensures
            r == self.mode_spec(),
            r matches EqMode::Solo(i) ==> i < NUM_BANDS,
    {
        if !self.enabled {
            return EqMode::Bypass;
        }
        let mut i: usize = 0;
        while i < NUM_BANDS
            invariant
                i <= NUM_BANDS,
                self.enabled,
                first_solo(self.bands@, i as int) == first_solo(self.bands@, 0),
            decreases NUM_BANDS - i,
        {
            if self.bands[i].solo {
                return EqMode::Solo(i);
            }
            i = i + 1;
        }
        EqMode::Normal
    }
}

/// The equaliser: its settings, and where its filters are.
pub struct Eq<S> {
    pub channels: usize,
    pub sample_rate: u32,
    pub settings: EqSettings<S>,
    /// What the filters of each channel remember.
    pub states: Vec<[BiquadState<S>; 5]>,
    /// The coefficients that the last chunk ended with.
    pub coeffs: [BiquadCoeffs<S>; 5],
    /// How many filters of the chain are in use.
    pub active: usize,
}

/// What the filters of all bands are computed from.
#[derive(Clone, Copy, Debug)]
pub struct EqTones<S> {
    pub bands: [Tone<S>; 5],
    /// The quality of the shelves, and of the low and high pass.
    pub shelf_q: S,
}

/// The coefficients of the whole chain in a mode.
pub open spec fn target_coeffs<S: Sample>(mode: EqMode, tones: EqTones<S>) -> Seq<
    BiquadCoeffs<S>,
> {
    let t = tones.bands@;
    let idle = BiquadCoeffs::<S>::identity_spec();
    match mode {
        EqMode::Bypass => seq![idle, idle, idle, idle, idle],
        EqMode::Solo(i) => seq![
            if i == 0 {
                BiquadCoeffs::lpf_spec(t[0], tones.shelf_q)
            } else if i == NUM_BANDS - 1 {
                BiquadCoeffs::hpf_spec(t[4], tones.shelf_q)
            } else {
                BiquadCoeffs::bpf_spec(t[i as int], num::<S>(7).div_spec(num(10)))
            },
            idle,
            idle,
            idle,
            idle,
        ],
        EqMode::Normal => seq![
            BiquadCoeffs::low_shelf_spec(t[0], tones.shelf_q),
            BiquadCoeffs::peak_spec(t[1], num(1)),
            BiquadCoeffs::peak_spec(t[2], num(1)),
            BiquadCoeffs::peak_spec(t[3], num(1)),
            BiquadCoeffs::high_shelf_spec(t[4], tones.shelf_q),
        ],
    }
}

/// How many filters run in a mode.
pub open spec fn active_filters(mode: EqMode) -> usize {
    match mode {
        EqMode::Bypass => 0,
        EqMode::Solo(_) => 1,
        EqMode::Normal => NUM_BANDS,
    }
}

impl<S: Sample> Eq<S> {
    /// One set of filter states for every channel, and no more filters in
    /// use than there are.
    pub open spec fn wf(self) -> bool {
        &&& self.states.len() >= self.channels
        &&& self.active <= NUM_BANDS
    }

    /// The coefficients and the length of the chain that the settings ask for.
    pub fn compute_target(&self, tones: &EqTones<S>) -> (r: ([BiquadCoeffs<S>; 5], usize))
        requires
            total_arithmetic::<S>(),
        ensures
            r.0@ == target_coeffs(self.settings.mode_spec(), *tones),
            r.1 == active_filters(self.settings.mode_spec()),
    {
        let idle: BiquadCoeffs<S> = BiquadCoeffs::identity();
        let r: ([BiquadCoeffs<S>; 5], usize) = match self.settings.mode() {
            EqMode::Bypass => ([idle, idle, idle, idle, idle], 0),
            EqMode::Solo(i) => {
                let only: BiquadCoeffs<S> = if i == 0 {
                    BiquadCoeffs::lpf(tones.bands[0], tones.shelf_q)
                } else if i == NUM_BANDS - 1 {
                    BiquadCoeffs::hpf(tones.bands[4], tones.shelf_q)
                } else {
                    BiquadCoeffs::bpf(tones.bands[i], whole::<S>(7) / whole(10))
                };
                ([only, idle, idle, idle, idle], 1)
            },
            EqMode::Normal => {
                let one: S = whole(1);
                (
                    [
                        BiquadCoeffs::low_shelf(tones.bands[0], tones.shelf_q),
                        BiquadCoeffs::peak(tones.bands[1], one),
                        BiquadCoeffs::peak(tones.bands[2], one),
                        BiquadCoeffs::peak(tones.bands[3], one),
                        BiquadCoeffs::high_shelf(tones.bands[4], tones.shelf_q),
                    ],
                    NUM_BANDS,
                )
            },
        };
        assert(r.0@ =~= target_coeffs(self.settings.mode_spec(), *tones));
        r
    }
}

/// `a` and `b` are more than `tolerance` apart.
pub open spec fn apart<S: Sample>(a: S, b: S, tolerance: S) -> bool {
    lt(tolerance, a.sub_spec(b)) || lt(tolerance, b.sub_spec(a))
}

/// One part in a thousand million: filters closer than this are the same.
pub open spec fn filter_tolerance<S: Sample>() -> S {
    num::<S>(1).div_spec(num::<S>(1000).mul_spec(num(1000)).mul_spec(num(1000)))
}

impl<S: Sample> BiquadCoeffs<S> {
    /// No coefficient of the two filters is noticeably different.
    pub open spec fn alike(self, other: BiquadCoeffs<S>) -> bool {
        &&& !apart(self.b0, other.b0, filter_tolerance())
        &&& !apart(self.b1, other.b1, filter_tolerance())
        &&& !apart(self.b2, other.b2, filter_tolerance())
        &&& !apart(self.a1, other.a1, filter_tolerance())
        &&& !apart(self.a2, other.a2, filter_tolerance())
    }

    /// The filter the fraction `t` of the way from `self` to `other`.
    pub open spec fn blend_spec(self, other: BiquadCoeffs<S>, t: S) -> BiquadCoeffs<S> {
        BiquadCoeffs {
            b0: self.b0.add_spec(other.b0.sub_spec(self.b0).mul_spec(t)),
            b1: self.b1.add_spec(other.b1.sub_spec(self.b1).mul_spec(t)),
            b2: self.b2.add_spec(other.b2.sub_spec(self.b2).mul_spec(t)),
            a1: self.a1.add_spec(other.a1.sub_spec(self.a1).mul_spec(t)),
            a2: self.a2.add_spec(other.a2.sub_spec(self.a2).mul_spec(t)),
        }
    }

    fn blend(&self, other: &BiquadCoeffs<S>, t: S) -> (r: BiquadCoeffs<S>)
        requires
            total_arithmetic::<S>(),
        ensures
            r == self.blend_spec(*other, t),
    {
        BiquadCoeffs {
            b0: self.b0 + (other.b0 - self.b0) * t,
            b1: self.b1 + (other.b1 - self.b1) * t,
            b2: self.b2 + (other.b2 - self.b2) * t,
            a1: self.a1 + (other.a1 - self.a1) * t,
            a2: self.a2 + (other.a2 - self.a2) * t,
        }
    }
}

/// Whether the first `n` filters of two chains are alike.
pub fn coeffs_equal<S: Sample>(
    a: &[BiquadCoeffs<S>; 5],
    b: &[BiquadCoeffs<S>; 5],
    n: usize,
) -> (r: bool)
    requires
        total_arithmetic::<S>(),
        n <= NUM_BANDS,
    ensures
        r == forall|i: int| 0 <= i < n ==> (#[trigger] a@[i]).alike(b@[i]),
{
    let million: S = whole::<S>(1000) * whole(1000);
    let eps: S = whole::<S>(1) / (million * whole(1000));
    let mut i: usize = 0;
    while i < n
        invariant
            total_arithmetic::<S>(),
            i <= n <= NUM_BANDS,
            eps == filter_tolerance::<S>(),
            forall|j: int| 0 <= j < i ==> (#[trigger] a@[j]).alike(b@[j]),
        decreases n - i,
    {
        let x: BiquadCoeffs<S> = a[i];
        let y: BiquadCoeffs<S> = b[i];
        if eps < x.b0 - y.b0 || eps < y.b0 - x.b0 || eps < x.b1 - y.b1 || eps < y.b1 - x.b1 || eps
            < x.b2 - y.b2 || eps < y.b2 - x.b2 || eps < x.a1 - y.a1 || eps < y.a1 - x.a1 || eps
            < x.a2 - y.a2 || eps < y.a2 - x.a2 {
            assert(!a@[i as int].alike(b@[i as int]));
            return false;
        }
        i = i + 1;
    }
    true
}

/// A chain `f` frames into a ramp of `frames` frames from one set of
/// coefficients to another.
pub open spec fn ramped<S: Sample>(
    from: Seq<BiquadCoeffs<S>>,
    to: Seq<BiquadCoeffs<S>>,
    frames: nat,
    f: int,
) -> Seq<BiquadCoeffs<S>> {
    let t = count::<S>(f as nat).mul_spec(num::<S>(1).div_spec(count::<S>(frames)));
    Seq::new(from.len(), |i: int| from[i].blend_spec(to[i], t))
}

/// Runs one sample through the first `active` filters of a chain.
fn filter_sample<S: Sample>(
    states: &mut [BiquadState<S>; 5],
    coeffs: &[BiquadCoeffs<S>; 5],
    active: usize,
    x: S,
) -> (y: S)
    requires
        total_arithmetic::<S>(),
        active <= NUM_BANDS,
    ensures
        (final(states)@, y) == cascade(old(states)@, coeffs@, active as nat, x),
{
    let mut y: S = x;
    let mut slot: usize = 0;
    while slot < active
        invariant
            total_arithmetic::<S>(),
            slot <= active <= NUM_BANDS,
            (states@, y) == cascade(old(states)@, coeffs@, slot as nat, x),
        decreases active - slot,
    {
        let mut state: BiquadState<S> = states[slot];
        y = state.process(y, &coeffs[slot]);
        states[slot] = state;
        slot = slot + 1;
    }
    y
}

impl<S: Sample> Eq<S> {
    /// The same equaliser but for what its filters remember.
    pub open spec fn same_but_states(self, other: Eq<S>) -> bool {
        &&& self.channels == other.channels
        &&& self.sample_rate == other.sample_rate
        &&& self.settings == other.settings
        &&& self.coeffs == other.coeffs
        &&& self.active == other.active
        &&& self.states.len() == other.states.len()
    }

    /// Filters the samples of frame `f`, each with its channel's chain.
    fn filter_frame(&mut self, buf: &mut [S], f: usize, coeffs: &[BiquadCoeffs<S>; 5])
        requires
            total_arithmetic::<S>(),
            old(self).wf(),
            (f + 1) * old(self).channels <= old(buf)@.len(),
        ensures
            final(self).same_but_states(*old(self)),
            forall|c: int|
                0 <= c < old(self).channels ==> (#[trigger] final(self).states@[c])@ == cascade(
                    old(self).states@[c]@,
                    coeffs@,
                    old(self).active as nat,
                    old(buf)@[f * old(self).channels + c],
                ).0,
            forall|c: int|
                old(self).channels <= c < old(self).states.len() ==> #[trigger] final(self).states@[c] == old(self).states@[c],
            final(buf)@.len() == old(buf)@.len(),
            forall|i: int|
                0 <= i < old(buf)@.len() ==> #[trigger] final(buf)@[i] == if f
                    * old(self).channels <= i < (f + 1) * old(self).channels {
                    cascade(
                        old(self).states@[i - f * old(self).channels]@,
                        coeffs@,
                        old(self).active as nat,
                        old(buf)@[i],
                    ).1
                } else {
                    old(buf)@[i]
                },
    {
        let channels: usize = self.channels;
        let samples: usize = buf.len();
        proof {
            vstd::arithmetic::mul::lemma_mul_is_distributive_add_other_way(
                channels as int,
                f as int,
                1,
            );
        }
        let base: usize = f * channels;
        let mut c: usize = 0;
        while c < channels
            invariant
                total_arithmetic::<S>(),
                channels == old(self).channels,
                c <= channels,
                base == f * channels,
                base + channels == (f + 1) * channels,
                base + channels <= samples,
                samples == old(buf)@.len(),
                buf@.len() == samples,
                self.wf(),
                self.same_but_states(*old(self)),
                forall|d: int|
                    0 <= d < c ==> (#[trigger] self.states@[d])@ == cascade(
                        old(self).states@[d]@,
                        coeffs@,
                        old(self).active as nat,
                        old(buf)@[base + d],
                    ).0,
                forall|d: int|
                    c <= d < self.states.len() ==> #[trigger] self.states@[d] == old(self).states@[d],
                forall|i: int|
                    0 <= i < samples ==> #[trigger] buf@[i] == if base <= i < base + c {
                        cascade(
                            old(self).states@[i - base]@,
                            coeffs@,
                            old(self).active as nat,
                            old(buf)@[i],
                        ).1
                    } else {
                        old(buf)@[i]
                    },
            decreases channels - c,
        {
            let mut chain: [BiquadState<S>; 5] = self.states[c];
            let x: S = buf[base + c];
            let y: S = filter_sample(&mut chain, coeffs, self.active, x);
            self.states[c] = chain;
            buf[base + c] = y;
            c = c + 1;
        }
    }
}

/// `buf` filtered from `start` on: in every whole frame, the sample of channel
/// `c` is what comes out of that channel's chain. An incomplete frame at the
/// end stays as it is.
pub open spec fn filtered<S: Sample>(
    start: Eq<S>,
    buf: Seq<S>,
    coeffs: spec_fn(int) -> Seq<BiquadCoeffs<S>>,
    active: nat,
) -> Seq<S> {
    let channels = start.channels as int;
    let frames = buf.len() as int / channels;
    Seq::new(
        buf.len(),
        |i: int|
            if i / channels >= frames {
                buf[i]
            } else {
                chain_output(
                    start.states@[i % channels]@,
                    buf,
                    channels,
                    i % channels,
                    coeffs,
                    active,
                    i / channels,
                )
            },
    )
}

/// What the filters remember after all frames of `buf`.
pub open spec fn filtered_states<S: Sample>(
    start: Eq<S>,
    end: Eq<S>,
    buf: Seq<S>,
    coeffs: spec_fn(int) -> Seq<BiquadCoeffs<S>>,
    active: nat,
) -> bool {
    let channels = start.channels as int;
    let frames = buf.len() as int / channels;
    &&& end.states.len() == start.states.len()
    &&& forall|c: int|
        0 <= c < channels ==> (#[trigger] end.states@[c])@ == chain_state(
            start.states@[c]@,
            buf,
            channels,
            c,
            coeffs,
            active,
            frames as nat,
        )
    &&& forall|c: int|
        channels <= c < start.states.len() ==> #[trigger] end.states@[c] == start.states@[c]
}

impl<S: Sample> Eq<S> {
    /// The chain that frame `f` of a chunk goes through on the way to
    /// `target`. Chains of different lengths cannot be blended, so there the
    /// target holds at once. Otherwise the coefficients move evenly over the
    /// chunk, or stay where they are if they are there already.
    pub open spec fn chain_at(
        self,
        target: Seq<BiquadCoeffs<S>>,
        target_active: usize,
        frames: nat,
    ) -> spec_fn(int) -> Seq<BiquadCoeffs<S>> {
        if target_active != self.active {
            |f: int| target
        } else if self.settled(target) {
            |f: int| self.coeffs@
        } else {
            |f: int| ramped(self.coeffs@, target, frames, f)
        }
    }

    /// The filters in use are alike those of `target`.
    pub open spec fn settled(self, target: Seq<BiquadCoeffs<S>>) -> bool {
        forall|i: int| 0 <= i < self.active ==> (#[trigger] self.coeffs@[i]).alike(target[i])
    }

    /// Whether a chunk goes by untouched: there is nothing to filter, or no
    /// filter was in use and none is asked for.
    pub open spec fn idles(self, buf: Seq<S>) -> bool {
        ||| self.channels == 0
        ||| buf.len() / self.channels as nat == 0
        ||| self.active == 0 && active_filters(self.settings.mode_spec()) == 0
    }

    /// What becomes of the interleaved samples of a chunk.
    pub open spec fn equalised(self, buf: Seq<S>, tones: EqTones<S>) -> Seq<S> {
        let target = target_coeffs(self.settings.mode_spec(), tones);
        let active = active_filters(self.settings.mode_spec());
        if self.idles(buf) {
            buf
        } else {
            filtered(
                self,
                buf,
                self.chain_at(target, active, buf.len() / self.channels as nat),
                active as nat,
            )
        }
    }

    /// `end` is this equaliser after a chunk: its filters remember the chunk,
    /// and it has arrived at what the settings ask for.
    pub open spec fn moves_to(self, end: Eq<S>, buf: Seq<S>, tones: EqTones<S>) -> bool {
        let target = target_coeffs(self.settings.mode_spec(), tones);
        let active = active_filters(self.settings.mode_spec());
        if self.idles(buf) {
            end == self
        } else {
            &&& filtered_states(
                self,
                end,
                buf,
                self.chain_at(target, active, buf.len() / self.channels as nat),
                active as nat,
            )
            &&& end.coeffs@ == if active == self.active && self.settled(target) {
                self.coeffs@
            } else {
                target
            }
            &&& end.active == active
            &&& end.channels == self.channels
            &&& end.sample_rate == self.sample_rate
            &&& end.settings == self.settings
        }
    }

    /// Runs the equaliser over interleaved samples in place.
    pub fn process_in_place(&mut self, buf: &mut [S], tones: &EqTones<S>)
        requires
            total_arithmetic::<S>(),
            old(self).wf(),
        ensures
            final(buf)@ == old(self).equalised(old(buf)@, *tones),
            old(self).moves_to(*final(self), old(buf)@, *tones),
            final(self).wf(),
    {
        if self.channels == 0 {
            return ;
        }
        let frames: usize = buf.len() / self.channels;
        if frames == 0 {
            return ;
        }
        let (target, target_active) = self.compute_target(tones);
        if self.active == 0 && target_active == 0 {
            return ;
        }
        let ghost before = buf@;
        let ghost start = *self;
        let ghost chain = self.chain_at(target@, target_active, frames as nat);
        if target_active != self.active {
            self.coeffs = target;
            self.active = target_active;
            let ghost mid = *self;
            self.process_chunk_constant(buf, frames);
            proof {
                same_run(start, mid, before, |f: int| mid.coeffs@, chain, target_active as nat);
            }
            return ;
        }
        if coeffs_equal(&self.coeffs, &target, self.active) {
            self.process_chunk_constant(buf, frames);
            proof {
                same_run(start, start, before, |f: int| start.coeffs@, chain, target_active as nat);
            }
        } else {
            self.process_chunk_ramped(buf, frames, &target);
            proof {
                same_run(
                    start,
                    start,
                    before,
                    |f: int| ramped(start.coeffs@, target@, frames as nat, f),
                    chain,
                    target_active as nat,
                );
            }
            self.coeffs = target;
        }
    }

    /// Filters a chunk with the coefficients as they are.
    fn process_chunk_constant(&mut self, buf: &mut [S], frames: usize)
        requires
            total_arithmetic::<S>(),
            old(self).wf(),
            old(self).channels > 0,
            frames == old(buf)@.len() as int / old(self).channels as int,
        ensures
            final(self).same_but_states(*old(self)),
            final(buf)@ == filtered(
                *old(self),
                old(buf)@,
                |f: int| old(self).coeffs@,
                old(self).active as nat,
            ),
            filtered_states(
                *old(self),
                *final(self),
                old(buf)@,
                |f: int| old(self).coeffs@,
                old(self).active as nat,
            ),
    {
        let ghost chain = |f: int| old(self).coeffs@;
        let coeffs: [BiquadCoeffs<S>; 5] = self.coeffs;
        let samples: usize = buf.len();
        let mut f: usize = 0;
        while f < frames
            invariant
                f <= frames,
                total_arithmetic::<S>(),
                coeffs == old(self).coeffs,
                chain == (|f: int| old(self).coeffs@),
                part_way(*old(self), *self, old(buf)@, buf@, chain, f as int),
                old(self).channels > 0,
                samples == old(buf)@.len(),
                frames == samples as int / old(self).channels as int,
            decreases frames - f,
        {
            let ghost mid = *self;
            let ghost mid_buf = buf@;
            proof {
                row_fits(f as int, samples as int, old(self).channels as int);
            }
            self.filter_frame(buf, f, &coeffs);
            proof {
                one_more_frame(
                    *old(self),
                    mid,
                    *self,
                    old(buf)@,
                    mid_buf,
                    buf@,
                    chain,
                    f as int,
                );
            }
            f = f + 1;
        }
        proof {
            all_frames(*old(self), *self, old(buf)@, buf@, chain);
        }
    }

    /// Filters a chunk while the coefficients move to `target`.
    fn process_chunk_ramped(
        &mut self,
        buf: &mut [S],
        frames: usize,
        target: &[BiquadCoeffs<S>; 5],
    )
        requires
            total_arithmetic::<S>(),
            old(self).wf(),
            old(self).channels > 0,
            frames == old(buf)@.len() as int / old(self).channels as int,
        ensures
            final(self).same_but_states(*old(self)),
            final(buf)@ == filtered(
                *old(self),
                old(buf)@,
                |f: int| ramped(old(self).coeffs@, target@, frames as nat, f),
                old(self).active as nat,
            ),
            filtered_states(
                *old(self),
                *final(self),
                old(buf)@,
                |f: int| ramped(old(self).coeffs@, target@, frames as nat, f),
                old(self).active as nat,
            ),
    {
        let ghost chain = |f: int| ramped(old(self).coeffs@, target@, frames as nat, f);
        let inv: S = whole::<S>(1) / count_of(frames as u64);
        let samples: usize = buf.len();
        let mut f: usize = 0;
        while f < frames
            invariant
                f <= frames,
                total_arithmetic::<S>(),
                inv == num::<S>(1).div_spec(count::<S>(frames as nat)),
                chain == (|f: int| ramped(old(self).coeffs@, target@, frames as nat, f)),
                part_way(*old(self), *self, old(buf)@, buf@, chain, f as int),
                old(self).channels > 0,
                samples == old(buf)@.len(),
                frames == samples as int / old(self).channels as int,
            decreases frames - f,
        {
            let ghost mid = *self;
            let ghost mid_buf = buf@;
            let t: S = count_of::<S>(f as u64) * inv;
            let coeffs: [BiquadCoeffs<S>; 5] = [
                self.coeffs[0].blend(&target[0], t),
                self.coeffs[1].blend(&target[1], t),
                self.coeffs[2].blend(&target[2], t),
                self.coeffs[3].blend(&target[3], t),
                self.coeffs[4].blend(&target[4], t),
            ];
            proof {
                row_fits(f as int, samples as int, old(self).channels as int);
                assert(coeffs@ =~= ramped(old(self).coeffs@, target@, frames as nat, f as int));
            }
            self.filter_frame(buf, f, &coeffs);
            proof {
                one_more_frame(
                    *old(self),
                    mid,
                    *self,
                    old(buf)@,
                    mid_buf,
                    buf@,
                    chain,
                    f as int,
                );
            }
            f = f + 1;
        }
        proof {
            all_frames(*old(self), *self, old(buf)@, buf@, chain);
        }
    }
}

/// The first `f` frames of a chunk are filtered and the rest are not.
spec fn part_way<S: Sample>(
    start: Eq<S>,
    now: Eq<S>,
    before: Seq<S>,
    buf: Seq<S>,
    coeffs: spec_fn(int) -> Seq<BiquadCoeffs<S>>,
    f: int,
) -> bool {
    let channels = start.channels as int;
    let active = start.active as nat;
    &&& start.wf()
    &&& now.same_but_states(start)
    &&& buf.len() == before.len()
    &&& forall|c: int|
        0 <= c < channels ==> (#[trigger] now.states@[c])@ == chain_state(
            start.states@[c]@,
            before,
            channels,
            c,
            coeffs,
            active,
            f as nat,
        )
    &&& forall|c: int|
        channels <= c < start.states.len() ==> #[trigger] now.states@[c] == start.states@[c]
    &&& forall|i: int|
        0 <= i < before.len() ==> #[trigger] buf[i] == if i / channels >= f {
            before[i]
        } else {
            chain_output(
                start.states@[i % channels]@,
                before,
                channels,
                i % channels,
                coeffs,
                active,
                i / channels,
            )
        }
}

/// Filtering frame `f` on top of the frames before it.
proof fn one_more_frame<S: Sample>(
    start: Eq<S>,
    mid: Eq<S>,
    end: Eq<S>,
    before: Seq<S>,
    mid_buf: Seq<S>,
    buf: Seq<S>,
    coeffs: spec_fn(int) -> Seq<BiquadCoeffs<S>>,
    f: int,
)
    requires
        0 <= f,
        start.channels > 0,
        part_way(start, mid, before, mid_buf, coeffs, f),
        (f + 1) * start.channels <= before.len(),
        end.same_but_states(mid),
        buf.len() == mid_buf.len(),
        forall|c: int|
            0 <= c < mid.channels ==> (#[trigger] end.states@[c])@ == cascade(
                mid.states@[c]@,
                coeffs(f),
                mid.active as nat,
                mid_buf[f * mid.channels + c],
            ).0,
        forall|c: int|
            mid.channels <= c < mid.states.len() ==> #[trigger] end.states@[c] == mid.states@[c],
        forall|i: int|
            0 <= i < mid_buf.len() ==> #[trigger] buf[i] == if f * mid.channels <= i < (f + 1)
                * mid.channels {
                cascade(
                    mid.states@[i - f * mid.channels]@,
                    coeffs(f),
                    mid.active as nat,
                    mid_buf[i],
                ).1
            } else {
                mid_buf[i]
            },
    ensures
        part_way(start, end, before, buf, coeffs, f + 1),
{
    let channels = start.channels as int;
    vstd::arithmetic::mul::lemma_mul_is_distributive_add_other_way(channels, f, 1);
    vstd::arithmetic::mul::lemma_mul_nonnegative(f, channels);
    assert forall|c: int| 0 <= c < channels implies (#[trigger] end.states@[c])@ == chain_state(
        start.states@[c]@,
        before,
        channels,
        c,
        coeffs,
        start.active as nat,
        (f + 1) as nat,
    ) by {
        let i = f * channels + c;
        vstd::arithmetic::div_mod::lemma_fundamental_div_mod_converse(i, channels, f, c);
        assert(mid_buf[i] == before[i]);
        assert(mid.states@[c]@ == chain_state(
            start.states@[c]@,
            before,
            channels,
            c,
            coeffs,
            start.active as nat,
            f as nat,
        ));
    }
    assert forall|i: int| 0 <= i < before.len() implies #[trigger] buf[i] == if i / channels >= f
        + 1 {
        before[i]
    } else {
        chain_output(
            start.states@[i % channels]@,
            before,
            channels,
            i % channels,
            coeffs,
            start.active as nat,
            i / channels,
        )
    } by {
        vstd::arithmetic::div_mod::lemma_fundamental_div_mod(i, channels);
        assert(channels * (i / channels) == (i / channels) * channels) by (nonlinear_arith);
        if f * channels <= i < (f + 1) * channels {
            let c = i - f * channels;
            vstd::arithmetic::div_mod::lemma_fundamental_div_mod_converse(i, channels, f, c);
            assert(mid_buf[i] == before[i]);
            assert(mid.states@[c]@ == chain_state(
                start.states@[c]@,
                before,
                channels,
                c,
                coeffs,
                start.active as nat,
                f as nat,
            ));
        } else if i / channels == f {
            assert(false);
        }
        assert(mid_buf[i] == if i / channels >= f {
            before[i]
        } else {
            chain_output(
                start.states@[i % channels]@,
                before,
                channels,
                i % channels,
                coeffs,
                start.active as nat,
                i / channels,
            )
        });
    }
}

/// Once every frame is filtered, the chunk is.
proof fn all_frames<S: Sample>(
    start: Eq<S>,
    end: Eq<S>,
    before: Seq<S>,
    buf: Seq<S>,
    coeffs: spec_fn(int) -> Seq<BiquadCoeffs<S>>,
)
    requires
        start.channels > 0,
        part_way(start, end, before, buf, coeffs, before.len() as int / start.channels as int),
    ensures
        buf == filtered(start, before, coeffs, start.active as nat),
        filtered_states(start, end, before, coeffs, start.active as nat),
{
    assert(buf =~= filtered(start, before, coeffs, start.active as nat));
}

/// Chains whose coefficients agree at every frame filter alike.
proof fn same_run<S: Sample>(
    a: Eq<S>,
    b: Eq<S>,
    buf: Seq<S>,
    one: spec_fn(int) -> Seq<BiquadCoeffs<S>>,
    other: spec_fn(int) -> Seq<BiquadCoeffs<S>>,
    active: nat,
)
    requires
        a.channels == b.channels,
        a.states == b.states,
        forall|f: int| one(f) == #[trigger] other(f),
    ensures
        filtered(a, buf, other, active) == filtered(b, buf, one, active),
        forall|end: Eq<S>|
            #[trigger] filtered_states(a, end, buf, other, active) == filtered_states(
                b,
                end,
                buf,
                one,
                active,
            ),
{
    assert(one =~= other);
}

impl<S: Sample> Eq<S> {
    /// An equaliser that is switched off, with silent filters.
    pub fn new(channels: usize, sample_rate: u32) -> (r: Eq<S>)
        requires
            total_arithmetic::<S>(),
        ensures
            r.wf(),
            r.channels == channels,
            r.sample_rate == sample_rate,
            r.settings.is_initial(),
            r.states.len() == if channels == 0 {
                1
            } else {
                channels
            },
            forall|c: int, k: int|
                0 <= c < r.states.len() && 0 <= k < NUM_BANDS ==> #[trigger] r.states@[c]@[k]
                    == BiquadState::<S>::silent(),
            forall|k: int|
                0 <= k < NUM_BANDS ==> #[trigger] r.coeffs@[k]
                    == BiquadCoeffs::<S>::identity_spec(),
            r.active == 0,
    {
        let zero: S = whole(0);
        let silent: BiquadState<S> = BiquadState { x1: zero, x2: zero, y1: zero, y2: zero };
        let idle: BiquadCoeffs<S> = BiquadCoeffs::identity();
        let chains: usize = if channels == 0 {
            1
        } else {
            channels
        };
        let mut states: Vec<[BiquadState<S>; 5]> = Vec::new();
        while states.len() < chains
            invariant
                states.len() <= chains,
                silent == BiquadState::<S>::silent(),
                forall|c: int, k: int|
                    0 <= c < states.len() && 0 <= k < NUM_BANDS ==> #[trigger] states@[c]@[k]
                        == BiquadState::<S>::silent(),
            decreases chains - states.len(),
        {
            states.push([silent, silent, silent, silent, silent]);
        }
        Eq {
            channels,
            sample_rate,
            settings: EqSettings::defaults(),
            states,
            coeffs: [idle, idle, idle, idle, idle],
            active: 0,
        }
    }

    /// Takes new settings. The next chunk moves to them.
    pub fn set_settings(&mut self, settings: EqSettings<S>)
        ensures
            *final(self) == (Eq { settings, ..*old(self) }),
    {
        self.settings = settings;
    }
}

/// Where several bands are soloed, the lowest of them is the one that is
/// heard; where none is, the whole chain runs.
pub proof fn lowest_solo_wins<S: Sample>(settings: EqSettings<S>)
    requires
        settings.enabled,
    ensures
        settings.mode_spec() matches EqMode::Solo(i) ==> i < NUM_BANDS
            && settings.bands@[i as int].solo && forall|j: int|
            0 <= j < i ==> !(#[trigger] settings.bands@[j]).solo,
        settings.mode_spec() == EqMode::Normal <==> forall|j: int|
            0 <= j < NUM_BANDS ==> !(#[trigger] settings.bands@[j]).solo,
{
    first_solo_found(settings.bands@, 0);
}

proof fn first_solo_found<S>(bands: Seq<BandSettings<S>>, i: int)
    requires
        0 <= i <= bands.len(),
    ensures
        match first_solo(bands, i) {
            Some(k) => i <= k < bands.len() && bands[k].solo && forall|j: int|
                i <= j < k ==> !(#[trigger] bands[j]).solo,
            None => forall|j: int| i <= j < bands.len() ==> !(#[trigger] bands[j]).solo,
        },
    decreases bands.len() - i,
{
    if i < bands.len() && !bands[i].solo {
        first_solo_found(bands, i + 1);
    }
}

/// What comes out on one channel at a frame depends on that channel alone, and
/// on nothing later.
pub proof fn channels_do_not_mix<S: Sample>(
    start: Eq<S>,
    one: Seq<S>,
    other: Seq<S>,
    coeffs: spec_fn(int) -> Seq<BiquadCoeffs<S>>,
    active: nat,
    i: int,
)
    requires
        start.channels > 0,
        one.len() == other.len(),
        0 <= i < one.len(),
        forall|j: int|
            0 <= j <= i && j % start.channels as int == i % start.channels as int
                ==> #[trigger] one[j] == other[j],
    ensures
        filtered(start, one, coeffs, active)[i] == filtered(start, other, coeffs, active)[i],
{
    let channels = start.channels as int;
    let f = i / channels;
    let c = i % channels;
    vstd::arithmetic::div_mod::lemma_fundamental_div_mod(i, channels);
    assert(channels * f == f * channels) by (nonlinear_arith);
    assert(f >= 0) by {
        vstd::arithmetic::div_mod::lemma_div_pos_is_pos(i, channels);
    }
    same_channel_state(start.states@[c]@, one, other, channels, c, coeffs, active, f as nat, i);
}

proof fn same_channel_state<S: Sample>(
    start: Seq<BiquadState<S>>,
    one: Seq<S>,
    other: Seq<S>,
    channels: int,
    c: int,
    coeffs: spec_fn(int) -> Seq<BiquadCoeffs<S>>,
    active: nat,
    f: nat,
    i: int,
)
    requires
        0 <= c < channels,
        f * channels + c <= i,
        forall|j: int| 0 <= j <= i && j % channels == c ==> #[trigger] one[j] == other[j],
    ensures
        chain_state(start, one, channels, c, coeffs, active, f) == chain_state(
            start,
            other,
            channels,
            c,
            coeffs,
            active,
            f,
        ),
    decreases f,
{
    if f > 0 {
        let g = f - 1;
        vstd::arithmetic::mul::lemma_mul_is_distributive_add_other_way(channels, g, 1);
        vstd::arithmetic::mul::lemma_mul_nonnegative(g, channels);
        same_channel_state(start, one, other, channels, c, coeffs, active, g as nat, i);
        vstd::arithmetic::div_mod::lemma_fundamental_div_mod_converse(
            g * channels + c,
            channels,
            g,
            c,
        );
        assert(one[g * channels + c] == other[g * channels + c]);
    }
}

/// While the equaliser is switched off, and has been for a chunk, sound goes
/// by as it is.
pub proof fn bypass_is_transparent<S: Sample>(eq: Eq<S>, buf: Seq<S>, tones: EqTones<S>)
    requires
        !eq.settings.enabled,
        eq.active == 0,
    ensures
        eq.equalised(buf, tones) == buf,
{
}

} // verus!
