//! Estimating the tempo of a passage: how much louder it gets from moment to
//! moment, and after which distance this repeats. The transforms to spectra,
//! and how likely a tempo is to begin with, are the caller's.

use vstd::prelude::*;
use vstd::std_specs::ops::{AddSpec, DivSpec, MulSpec, SubSpec};

use crate::dsp::phase_vocoder::flux;
use crate::reading::{
    about, about_product, about_sum, product_from_zero, reads, regroup, spread, within_real,
};
use crate::sample::{
    count, count_of, counts_rise, finite, half, is_finite, larger, larger_of, le, lt, nearest,
    nearest_count, nearest_count_up_to, nearest_within, num, order_laws, real_like, same,
    total_arithmetic, whole, Sample,
};
use crate::track::{frames_bounded, frames_fit, Track};

pub mod laws;

verus! {

/// What is known of the loaded track's tempo.
#[derive(Clone, Copy, Debug, PartialEq)]
pub enum BpmStatus<S> {
    Idle,
    Running,
    Done(S),
    Failed,
}

/// The frames that one spectrum looks at.
pub const FRAME: usize = 1024;

/// The frames from one spectrum to the next.
pub const HOP: usize = 512;

/// The frequencies of one spectrum.
pub const BINS: usize = 513;

/// The slowest tempo looked for, in beats per minute.
pub const MIN_BPM: i16 = 60;

/// The fastest tempo looked for, in beats per minute.
pub const MAX_BPM: i16 = 200;

/// No beat is further apart than this many spectra at any sample rate.
pub const MAX_LAG: usize = 8_388_608;

/// A frame of the passage, or the end of the track where it lies beyond.
pub open spec fn within(frame: u64, total: nat) -> nat {
    if frame <= total {
        frame as nat
    } else {
        total
    }
}

/// The passage of a track that can be examined: cut off at its end, and
/// longer than one spectrum.
pub open spec fn passage<S>(track: Track<S>, start: u64, end: u64) -> Option<(usize, usize)> {
    if track.sample_rate == 0 || track.channels == 0 {
        None
    } else {
        let a = within(start, track.frames());
        let b = within(end, track.frames());
        if b <= a + FRAME {
            None
        } else {
            Some((a as usize, b as usize))
        }
    }
}

/// The passage of a track that can be examined.
pub fn detection_range<S>(track: &Track<S>, start_frame: u64, end_frame: u64) -> (r: Option<
    (usize, usize),
>)
    ensures
        r == passage(*track, start_frame, end_frame),
        r matches Some((a, b)) ==> a + FRAME < b <= track.frames(),
{
    if track.sample_rate == 0 || track.channels == 0 {
        return None;
    }
    let samples: usize = track.samples.len();
    let total: usize = samples / track.channels as usize;
    proof {
        frames_bounded(track);
    }
    let start: usize = if start_frame <= total as u64 {
        start_frame as usize
    } else {
        total
    };
    let end: usize = if end_frame <= total as u64 {
        end_frame as usize
    } else {
        total
    };
    if end <= start || end - start <= FRAME {
        None
    } else {
        Some((start, end))
    }
}

/// The first `n` channels of a frame added up.
pub open spec fn frame_sum<S: Sample>(track: Track<S>, f: int, n: nat) -> S
    decreases n,
{
    if n == 0 {
        num(0)
    } else {
        frame_sum(track, f, (n - 1) as nat).add_spec(track.sample(f, n - 1))
    }
}

/// The average of a frame's channels.
pub open spec fn frame_mean<S: Sample>(track: Track<S>, f: int) -> S {
    frame_sum(track, f, track.channels as nat).mul_spec(
        num::<S>(1).div_spec(count::<S>(track.channels as nat)),
    )
}

/// A passage with its channels mixed into one.
pub fn mono_mix<S: Sample>(track: &Track<S>, start: usize, end: usize) -> (r: Vec<S>)
    requires
        total_arithmetic::<S>(),
        track.channels > 0,
        start <= end <= track.frames(),
    ensures
        r@ == Seq::new((end - start) as nat, |i: int| frame_mean(*track, start + i)),
{
    let channels: usize = track.channels as usize;
    let samples: usize = track.samples.len();
    let scale: S = whole::<S>(1) / count_of(track.channels as u64);
    let mut mono: Vec<S> = Vec::new();
    let mut f: usize = start;
    while f < end
        invariant
            total_arithmetic::<S>(),
            channels == track.channels,
            channels > 0,
            samples == track.samples@.len(),
            start <= f <= end <= track.frames(),
            scale == num::<S>(1).div_spec(count::<S>(track.channels as nat)),
            mono@ =~= Seq::new((f - start) as nat, |i: int| frame_mean(*track, start + i)),
        decreases end - f,
    {
        proof {
            frames_fit(track, f as int, f + 1);
            assert((f + 1) * channels == f * channels + channels) by (nonlinear_arith);
        }
        let base: usize = f * channels;
        let mut s: S = whole(0);
        let mut c: usize = 0;
        while c < channels
            invariant
                total_arithmetic::<S>(),
                channels == track.channels,
                c <= channels,
                base == f * channels,
                base + channels <= samples,
                samples == track.samples@.len(),
                s == frame_sum(*track, f as int, c as nat),
            decreases channels - c,
        {
            s = s + track.samples[base + c];
            c = c + 1;
        }
        mono.push(s * scale);
        f = f + 1;
    }
    mono
}

/// How many spectra a mixed passage has. Fewer than eight are too few.
pub open spec fn spectra(len: int) -> Option<int> {
    if len < FRAME || (len - FRAME) / (HOP as int) + 1 < 8 {
        None
    } else {
        Some((len - FRAME) / (HOP as int) + 1)
    }
}

/// How many spectra a mixed passage has.
pub fn spectrum_count(len: usize) -> (r: Option<usize>)
    ensures
        match r {
            Some(n) => spectra(len as int) == Some(n as int) && (n - 1) * HOP + FRAME <= len,
            None => spectra(len as int) is None,
        },
{
    if len < FRAME {
        return None;
    }
    let n: usize = (len - FRAME) / HOP + 1;
    if n < 8 {
        None
    } else {
        Some(n)
    }
}

/// The samples that spectrum `f` is made of, under a window.
pub fn onset_frame<S: Sample>(mono: &Vec<S>, window: &Vec<S>, f: usize) -> (r: Vec<S>)
    requires
        total_arithmetic::<S>(),
        window@.len() == FRAME,
        f * HOP + FRAME <= mono@.len(),
    ensures
        r@ == Seq::new(FRAME as nat, |i: int| mono@[f * HOP + i].mul_spec(window@[i])),
{
    let len: usize = mono.len();
    let first: usize = f * HOP;
    let mut r: Vec<S> = Vec::new();
    while r.len() < FRAME
        invariant
            total_arithmetic::<S>(),
            window@.len() == FRAME,
            first == f * HOP,
            len == mono@.len(),
            first + FRAME <= len,
            r@.len() <= FRAME,
            r@ =~= Seq::new(r@.len(), |i: int| mono@[f * HOP + i].mul_spec(window@[i])),
        decreases FRAME - r@.len(),
    {
        let i: usize = r.len();
        r.push(mono[first + i] * window[i]);
    }
    r
}

/// How much louder a spectrum is than the one before it.
pub fn spectral_flux<S: Sample>(mags: &Vec<S>, prev: &Vec<S>) -> (r: S)
    requires
        total_arithmetic::<S>(),
        mags@.len() == BINS,
        prev@.len() == BINS,
    ensures
        r == flux(mags@, prev@, BINS as nat),
{
    let zero: S = whole(0);
    let mut sum: S = zero;
    let mut k: usize = 0;
    while k < BINS
        invariant
            total_arithmetic::<S>(),
            zero == num::<S>(0),
            k <= BINS,
            mags@.len() == BINS,
            prev@.len() == BINS,
            sum == flux(mags@, prev@, k as nat),
        decreases BINS - k,
    {
        let d: S = mags[k] - prev[k];
        if zero < d {
            sum = sum + d;
        }
        k = k + 1;
    }
    sum
}

/// The sum of the first `n` values.
pub open spec fn sum_of<S: Sample>(v: Seq<S>, n: nat) -> S
    decreases n,
{
    if n == 0 {
        num(0)
    } else {
        sum_of(v, (n - 1) as nat).add_spec(v[n - 1])
    }
}

/// What exceeds the average, and nothing where that is not exceeded.
pub open spec fn over_mean<S: Sample>(v: Seq<S>) -> Seq<S> {
    let mean = sum_of(v, v.len()).div_spec(count::<S>(v.len()));
    Seq::new(v.len(), |i: int| larger(v[i].sub_spec(mean), num(0)))
}

/// The onset envelope of a passage, given how much louder each of its spectra
/// is than the one before it: what exceeds the average.
pub fn onset_envelope<S: Sample>(flux: &Vec<S>) -> (r: Option<Vec<S>>)
    requires
        total_arithmetic::<S>(),
    ensures
        r is Some <==> flux@.len() > 0,
        r matches Some(v) ==> v@ == over_mean(flux@),
{
    let n: usize = flux.len();
    if n == 0 {
        return None;
    }
    let mut sum: S = whole(0);
    let mut i: usize = 0;
    while i < n
        invariant
            total_arithmetic::<S>(),
            i <= n,
            n == flux@.len(),
            sum == sum_of(flux@, i as nat),
        decreases n - i,
    {
        sum = sum + flux[i];
        i = i + 1;
    }
    let mean: S = sum / count_of(n as u64);
    let zero: S = whole(0);
    let mut r: Vec<S> = Vec::new();
    while r.len() < n
        invariant
            total_arithmetic::<S>(),
            n == flux@.len(),
            r@.len() <= n,
            zero == num::<S>(0),
            mean == sum_of(flux@, flux@.len()).div_spec(count::<S>(flux@.len())),
            r@ =~= over_mean(flux@).take(r@.len() as int),
        decreases n - r@.len(),
    {
        let k: usize = r.len();
        r.push(larger_of(flux[k] - mean, zero));
    }
    assert(r@ =~= over_mean(flux@));
    Some(r)
}

/// The first `n` products of an envelope with itself at a distance.
pub open spec fn products<S: Sample>(v: Seq<S>, lag: int, n: nat) -> S
    decreases n,
{
    if n == 0 {
        num(0)
    } else {
        products(v, lag, (n - 1) as nat).add_spec(v[n - 1].mul_spec(v[n - 1 + lag]))
    }
}

/// How much an envelope is like itself at a distance.
pub open spec fn likeness<S: Sample>(v: Seq<S>, lag: int) -> S {
    if lag >= v.len() {
        num(0)
    } else {
        let n = (v.len() - lag) as nat;
        products(v, lag, n).div_spec(count::<S>(n))
    }
}

/// How much an envelope is like itself at a distance.
pub fn autocorr_at<S: Sample>(envelope: &Vec<S>, lag: usize) -> (r: S)
    requires
        total_arithmetic::<S>(),
    ensures
        r == likeness(envelope@, lag as int),
{
    let len: usize = envelope.len();
    if lag >= len {
        return whole(0);
    }
    let n: usize = len - lag;
    let mut sum: S = whole(0);
    let mut i: usize = 0;
    while i < n
        invariant
            total_arithmetic::<S>(),
            i <= n,
            len == envelope@.len(),
            n + lag == len,
            sum == products(envelope@, lag as int, i as nat),
        decreases n - i,
    {
        sum = sum + envelope[i] * envelope[i + lag];
        i = i + 1;
    }
    sum / count_of(n as u64)
}

/// How many spectra there are in a second.
pub open spec fn onset_rate<S: Sample>(sample_rate: u32) -> S {
    count::<S>(sample_rate as nat).div_spec(num(512))
}

/// The distance of two beats in spectra at a tempo.
pub open spec fn lag_for<S: Sample>(rate: S, bpm: S) -> int {
    nearest_count(num::<S>(60).mul_spec(rate).div_spec(bpm), 0, MAX_LAG as int)
}

/// The tempo at which beats are so many spectra apart.
pub open spec fn bpm_at<S: Sample>(rate: S, lag: int) -> S {
    num::<S>(60).mul_spec(rate).div_spec(count::<S>(lag as nat))
}

/// How many spectra there are in a second.
pub fn spectra_per_second<S: Sample>(sample_rate: u32) -> (r: S)
    requires
        total_arithmetic::<S>(),
    ensures
        r == onset_rate::<S>(sample_rate),
{
    count_of::<S>(sample_rate as u64) / whole(512)
}

/// The tempo at which beats are so many spectra apart.
pub fn tempo_of_lag<S: Sample>(rate: S, lag: usize) -> (r: S)
    requires
        total_arithmetic::<S>(),
    ensures
        r == bpm_at(rate, lag as int),
{
    whole::<S>(60) * rate / count_of(lag as u64)
}

/// The distance of two beats in spectra at a tempo.
fn lag_of<S: Sample>(rate: S, bpm: S) -> (r: usize)
    requires
        total_arithmetic::<S>(),
    ensures
        r == lag_for(rate, bpm),
{
    nearest_count_up_to(whole::<S>(60) * rate / bpm, MAX_LAG)
}

/// The distances to try for an envelope of `len` values, or none where it is
/// too short for the slowest tempo.
pub open spec fn lags<S: Sample>(rate: S, len: int) -> Option<(int, int)> {
    let lo = lag_for(rate, num(MAX_BPM));
    let hi = lag_for(rate, num(MIN_BPM));
    if lo == 0 || hi >= len {
        None
    } else {
        Some((lo, hi))
    }
}

/// The distances to try for an envelope of `len` values.
pub fn lag_range<S: Sample>(rate: S, len: usize) -> (r: Option<(usize, usize)>)
    requires
        total_arithmetic::<S>(),
    ensures
        match r {
            Some((lo, hi)) => lags(rate, len as int) == Some((lo as int, hi as int)),
            None => lags(rate, len as int) is None,
        },
        r matches Some((lo, hi)) ==> 0 < lo && hi < len,
{
    let lo: usize = lag_of(rate, whole(MAX_BPM));
    let hi: usize = lag_of(rate, whole(MIN_BPM));
    if lo == 0 || hi >= len {
        None
    } else {
        Some((lo, hi))
    }
}

/// The first of `n` distances from `lo` on at which the envelope is most like
/// itself, weighed by how likely each distance is, and that score. Only a
/// score above zero counts.
pub open spec fn best_lag<S: Sample>(v: Seq<S>, lo: int, n: nat, priors: Seq<S>) -> Option<
    (int, S),
>
    decreases n,
{
    if n == 0 {
        None
    } else {
        let score = likeness(v, lo + n - 1).mul_spec(priors[n - 1]);
        let rest = best_lag(v, lo, (n - 1) as nat, priors);
        if lt(num(0), score) && (rest matches Some((_, best)) ==> lt(best, score)) {
            Some((lo + n - 1, score))
        } else {
            rest
        }
    }
}

/// The distance from `lo` to `hi` at which an envelope is most like itself.
/// `priors` says how likely each of them is.
pub fn autocorrelate<S: Sample>(envelope: &Vec<S>, lo: usize, hi: usize, priors: &Vec<S>) -> (r:
    Option<usize>)
    requires
        total_arithmetic::<S>(),
        hi < usize::MAX,
        lo <= hi ==> priors@.len() == hi - lo + 1,
    ensures
        ({
            let n = if lo <= hi {
                (hi - lo + 1) as nat
            } else {
                0
            };
            match r {
                Some(lag) => best_lag(envelope@, lo as int, n, priors@) matches Some((best, _))
                    && best == lag,
                None => best_lag(envelope@, lo as int, n, priors@) is None,
            }
        }),
{
    let zero: S = whole(0);
    let mut best: Option<(usize, S)> = None;
    let mut lag: usize = lo;
    while lag <= hi
        invariant
            total_arithmetic::<S>(),
            zero == num::<S>(0),
            hi < usize::MAX,
            lo <= hi ==> lag <= hi + 1,
            lo <= lag,
            lo > hi ==> lag == lo,
            lo <= hi ==> priors@.len() == hi - lo + 1,
            match best {
                Some((b, score)) => best_lag(envelope@, lo as int, (lag - lo) as nat, priors@)
                    == Some((b as int, score)),
                None => best_lag(envelope@, lo as int, (lag - lo) as nat, priors@) is None,
            },
        decreases hi + 1 - lag,
    {
        let score: S = autocorr_at(envelope, lag) * priors[lag - lo];
        if zero < score {
            let better: bool = match best {
                Some((_, top)) => top < score,
                None => true,
            };
            if better {
                best = Some((lag, score));
            }
        }
        lag = lag + 1;
    }
    match best {
        Some((b, _)) => Some(b),
        None => None,
    }
}

/// Whether a tempo is one that is looked for.
pub open spec fn plausible<S: Sample>(bpm: S) -> bool {
    le(num(MIN_BPM), bpm) && le(bpm, num(MAX_BPM))
}

/// Half, the same and double of a tempo.
pub open spec fn octave<S: Sample>(bpm: S, i: int) -> S {
    if i == 0 {
        bpm.mul_spec(half())
    } else if i == 1 {
        bpm
    } else {
        bpm.mul_spec(num(2))
    }
}

/// How well a tempo fits, or none where it does not come into question.
pub open spec fn octave_score<S: Sample>(v: Seq<S>, rate: S, bpm: S, prior: S) -> Option<S> {
    let lag = lag_for(rate, bpm);
    let score = likeness(v, lag).mul_spec(prior);
    if !plausible(bpm) || lag == 0 || lag >= v.len() || !(finite(score) || lt(num(0), score)) {
        None
    } else {
        Some(score)
    }
}

/// The first of the first `n` octaves of a tempo that fits best, and how well
/// it does.
pub open spec fn best_octave<S: Sample>(
    v: Seq<S>,
    rate: S,
    bpm: S,
    priors: Seq<S>,
    n: nat,
) -> Option<(S, S)>
    decreases n,
{
    if n == 0 {
        None
    } else {
        let rest = best_octave(v, rate, bpm, priors, (n - 1) as nat);
        let cand = octave(bpm, n - 1);
        match octave_score(v, rate, cand, priors[n - 1]) {
            Some(score) => if rest matches Some((_, best)) ==> lt(best, score) {
                Some((cand, score))
            } else {
                rest
            },
            None => rest,
        }
    }
}

/// Half, the same and double of a tempo.
pub fn octaves<S: Sample>(bpm: S) -> (r: [S; 3])
    requires
        total_arithmetic::<S>(),
    ensures
        forall|i: int| 0 <= i < 3 ==> #[trigger] r@[i] == octave(bpm, i),
{
    [bpm * (whole::<S>(1) / whole(2)), bpm, bpm * whole(2)]
}

/// Whichever of half, the same and double of a tempo fits an envelope best.
/// `priors` says how likely each of them is.
pub fn octave_resolve<S: Sample>(envelope: &Vec<S>, rate: S, bpm: S, priors: &[S; 3]) -> (r: S)
    requires
        total_arithmetic::<S>(),
    ensures
        r == match best_octave(envelope@, rate, bpm, priors@, 3) {
            Some((best, _)) => best,
            None => bpm,
        },
{
    let candidates: [S; 3] = octaves(bpm);
    let zero: S = whole(0);
    let mut best: Option<(S, S)> = None;
    let mut i: usize = 0;
    while i < 3
        invariant
            total_arithmetic::<S>(),
            zero == num::<S>(0),
            i <= 3,
            forall|k: int| 0 <= k < 3 ==> #[trigger] candidates@[k] == octave(bpm, k),
            best == best_octave(envelope@, rate, bpm, priors@, i as nat),
        decreases 3 - i,
    {
        let cand: S = candidates[i];
        assert(cand == octave(bpm, i as int));
        if whole::<S>(MIN_BPM) <= cand && cand <= whole(MAX_BPM) {
            let lag: usize = lag_of(rate, cand);
            if lag != 0 && lag < envelope.len() {
                let score: S = autocorr_at(envelope, lag) * priors[i];
                if is_finite(score) || zero < score {
                    let better: bool = match best {
                        Some((_, top)) => top < score,
                        None => true,
                    };
                    if better {
                        best = Some((cand, score));
                    }
                }
            }
        }
        i = i + 1;
    }
    match best {
        Some((b, _)) => b,
        None => bpm,
    }
}

/// A tempo as a whole number.
pub fn rounded_bpm<S: Sample>(bpm: S) -> (r: i16)
    requires
        total_arithmetic::<S>(),
    ensures
        r == nearest(bpm, 0, 1000),
        0 <= r <= 1000,
{
    nearest_within(bpm, 0, 1000)
}

/// The distance found is one of those tried, with its own score, which is
/// above zero.
pub proof fn best_lag_is_tried<S: Sample>(v: Seq<S>, lo: int, n: nat, priors: Seq<S>)
    ensures
        best_lag(v, lo, n, priors) matches Some((lag, score)) ==> {
            &&& lo <= lag < lo + n
            &&& score == likeness(v, lag).mul_spec(priors[lag - lo])
            &&& lt(num(0), score)
        },
    decreases n,
{
    if n > 0 {
        best_lag_is_tried(v, lo, (n - 1) as nat, priors);
    }
}

/// Two onsets in silence are as alike at their distance as their product, shared
/// among all places that were compared. At any other distance silence meets
/// silence, and nothing is alike.
pub proof fn two_onsets_weigh_as_their_product<S: Sample>(v: Seq<S>, p: int, q: int, lag: int)
    requires
        real_like::<S>(),
        0 <= p < q < v.len(),
        0 < lag < v.len(),
        counts_rise::<S>(v.len()),
        finite(v[p]),
        finite(v[q]),
        finite(v[p].mul_spec(v[q])),
        forall|i: int| 0 <= i < v.len() && i != p && i != q ==> #[trigger] v[i] == num::<S>(0),
    ensures
        lag == q - p ==> same(
            likeness(v, lag),
            v[p].mul_spec(v[q]).div_spec(count::<S>((v.len() - lag) as nat)),
        ),
        lag != q - p ==> same(likeness(v, lag), num(0)),
{
    let n = (v.len() - lag) as nat;
    let zero = num::<S>(0);
    let sum = products(v, lag, n);
    let total = if lag == q - p {
        v[p].mul_spec(v[q])
    } else {
        zero
    };
    assert(finite(zero));
    products_of_two(v, p, q, lag, n);
    let c = count::<S>(n);
    assert(lt(zero, c) && finite(c));
    assert(le(sum, total) && le(total, sum));
    assert(le(sum.div_spec(c), total.div_spec(c)) && le(total.div_spec(c), sum.div_spec(c)));
    assert(same(zero.div_spec(c), zero));
    assert(same(sum.div_spec(c), total.div_spec(c)));
}

proof fn products_of_two<S: Sample>(v: Seq<S>, p: int, q: int, lag: int, n: nat)
    requires
        real_like::<S>(),
        0 <= p < q < v.len(),
        0 < lag < v.len(),
        n <= v.len() - lag,
        finite(v[p]),
        finite(v[q]),
        finite(v[p].mul_spec(v[q])),
        forall|i: int| 0 <= i < v.len() && i != p && i != q ==> #[trigger] v[i] == num::<S>(0),
    ensures
        same(
            products(v, lag, n),
            if lag == q - p && p < n {
                v[p].mul_spec(v[q])
            } else {
                num(0)
            },
        ),
    decreases n,
{
    let zero = num::<S>(0);
    assert(finite(zero));
    if n > 0 {
        let k = n - 1;
        products_of_two(v, p, q, lag, k as nat);
        let before = products(v, lag, k as nat);
        let term = v[k].mul_spec(v[k + lag]);
        assert(v[k] == zero || v[k + lag] == zero || (k == p && lag == q - p));
        if lag == q - p && k == p {
            sum_alike(before, zero, term, term);
            assert(same(zero.add_spec(term), term));
        } else {
            assert(finite(v[k]) && finite(v[k + lag]));
            assert(same(term, zero));
            let rest = if lag == q - p && p < k {
                v[p].mul_spec(v[q])
            } else {
                zero
            };
            sum_alike(before, rest, term, zero);
            assert(same(rest.add_spec(zero), rest));
        }
    }
}

/// Equal numbers have equal sums.
proof fn sum_alike<S: Sample>(a: S, b: S, c: S, d: S)
    requires
        real_like::<S>(),
        same(a, b),
        same(c, d),
        finite(b),
        finite(d),
    ensures
        same(a.add_spec(c), b.add_spec(d)),
{
    assert(le(a, b) && le(b, a) && le(c, d) && le(d, c));
    assert(finite(a) && finite(c));
    assert(le(a.add_spec(c), b.add_spec(c)) && le(b.add_spec(c), a.add_spec(c)));
    assert(le(b.add_spec(c), b.add_spec(d)) && le(b.add_spec(d), b.add_spec(c)));
}

/// The score of a distance: how much the envelope is like itself there, weighed
/// by how likely that is.
pub open spec fn score_at<S: Sample>(v: Seq<S>, lo: int, priors: Seq<S>, lag: int) -> S {
    likeness(v, lag).mul_spec(priors[lag - lo])
}

/// Of all distances that are tried, none scores higher than the one that is
/// found, and those before it score less. None is found only where none scores
/// above zero.
pub proof fn the_best_lag_wins<S: Sample>(
    v: Seq<S>,
    lo: int,
    n: nat,
    priors: Seq<S>,
    lag: int,
)
    requires
        order_laws::<S>(),
        lo <= lag < lo + n,
        lt(num(0), score_at(v, lo, priors, lag)),
    ensures
        match best_lag(v, lo, n, priors) {
            Some((best, _)) => {
                &&& lo <= best < lo + n
                &&& !lt(score_at(v, lo, priors, best), score_at(v, lo, priors, lag))
                &&& lag < best ==> lt(
                    score_at(v, lo, priors, lag),
                    score_at(v, lo, priors, best),
                )
            },
            None => false,
        },
    decreases n,
{
    best_lag_is_tried(v, lo, n, priors);
    best_lag_is_tried(v, lo, (n - 1) as nat, priors);
    if lag < lo + n - 1 {
        the_best_lag_wins(v, lo, (n - 1) as nat, priors, lag);
    }
}

/// No rise makes no flux, and a single one is all of it. What gets quieter does
/// not count.
pub proof fn only_rises_make_flux<S: Sample>(mags: Seq<S>, before: Seq<S>, n: nat, k: int)
    requires
        real_like::<S>(),
        0 <= k < n,
        n <= mags.len(),
        n <= before.len(),
        finite(mags[k].sub_spec(before[k])),
        forall|i: int|
            0 <= i < n && i != k ==> !lt(num(0), #[trigger] mags[i].sub_spec(before[i])),
    ensures
        lt(num(0), mags[k].sub_spec(before[k])) ==> same(
            flux(mags, before, n),
            mags[k].sub_spec(before[k]),
        ),
        !lt(num(0), mags[k].sub_spec(before[k])) ==> flux(mags, before, n) == num::<S>(0),
    decreases n,
{
    let last = n - 1;
    if k == last {
        no_rise(mags, before, last as nat);
        assert(same(
            num::<S>(0).add_spec(mags[k].sub_spec(before[k])),
            mags[k].sub_spec(before[k]),
        ));
    } else {
        only_rises_make_flux(mags, before, last as nat, k);
        assert(!lt(num(0), mags[last].sub_spec(before[last])));
    }
}

proof fn no_rise<S: Sample>(mags: Seq<S>, before: Seq<S>, n: nat)
    requires
        forall|i: int| 0 <= i < n ==> !lt(num(0), #[trigger] mags[i].sub_spec(before[i])),
    ensures
        flux(mags, before, n) == num::<S>(0),
    decreases n,
{
    if n > 0 {
        no_rise(mags, before, (n - 1) as nat);
        assert(!lt(num(0), mags[n - 1].sub_spec(before[n - 1])));
    }
}

/// More rises make no less flux.
pub proof fn flux_never_falls<S: Sample>(mags: Seq<S>, before: Seq<S>, n: nat)
    requires
        real_like::<S>(),
    ensures
        le(num(0), flux(mags, before, n)),
        forall|k: int|
            0 <= k < n && lt(num(0), #[trigger] mags[k].sub_spec(before[k])) ==> le(
                mags[k].sub_spec(before[k]),
                flux(mags, before, n),
            ),
    decreases n,
{
    assert(finite(num::<S>(0)));
    if n > 0 {
        let last = n - 1;
        flux_never_falls(mags, before, last as nat);
        let sum = flux(mags, before, last as nat);
        let rise = mags[last].sub_spec(before[last]);
        if lt(num(0), rise) {
            assert(le(sum, sum.add_spec(rise)) && le(rise, sum.add_spec(rise)));
        }
        assert(le(sum, flux(mags, before, n)));
        assert forall|k: int|
            0 <= k < n && lt(num(0), #[trigger] mags[k].sub_spec(before[k])) implies le(
            mags[k].sub_spec(before[k]),
            flux(mags, before, n),
        ) by {
            if k < last {
                assert(le(mags[k].sub_spec(before[k]), sum));
            }
        }
    }
}

/// An envelope is nowhere below zero, and is zero wherever its average is not
/// exceeded. Elsewhere it is what exceeds the average.
pub proof fn envelopes_show_what_exceeds_the_mean<S: Sample>(v: Seq<S>, i: int)
    requires
        real_like::<S>(),
        0 <= i < v.len(),
        finite(v[i]),
        finite(sum_of(v, v.len()).div_spec(count::<S>(v.len()))),
    ensures
        ({
            let mean = sum_of(v, v.len()).div_spec(count::<S>(v.len()));
            let r = over_mean(v)[i];
            &&& le(num(0), r)
            &&& le(v[i], mean) ==> same(r, num(0))
            &&& lt(mean, v[i]) ==> r == v[i].sub_spec(mean) && lt(num(0), r)
        }),
{
    let zero = num::<S>(0);
    let mean = sum_of(v, v.len()).div_spec(count::<S>(v.len()));
    let x = v[i].sub_spec(mean);
    assert(finite(zero));
    assert(lt(zero, x) <==> lt(mean, v[i]));
    assert(le(v[i], mean) || lt(mean, v[i]));
    if le(v[i], mean) {
        assert(le(x, mean.sub_spec(mean)));
        assert(same(mean.sub_spec(mean), zero));
        assert(same(x, x));
        assert(lt(x, zero) || same(x, zero));
    }
}

/// The mix of one channel is that channel, and the mix of two is half their sum.
pub proof fn mixes_are_averages<S: Sample>(
    value: spec_fn(S) -> real,
    top: real,
    err: real,
    track: Track<S>,
    f: int,
)
    requires
        reads(value, top, err),
        top >= 8real,
        err <= 1real / 16real,
        finite(track.sample(f, 0)) && within_real(value(track.sample(f, 0)), 1real),
        finite(track.sample(f, 1)) && within_real(value(track.sample(f, 1)), 1real),
    ensures
        track.channels == 1 ==> about(
            value,
            frame_mean(track, f),
            value(track.sample(f, 0)),
            8real * err,
        ),
        track.channels == 2 ==> about(
            value,
            frame_mean(track, f),
            (value(track.sample(f, 0)) + value(track.sample(f, 1))) / 2real,
            8real * err,
        ),
{
    let zero = num::<S>(0);
    let one = num::<S>(1);
    let (x, y) = (track.sample(f, 0), track.sample(f, 1));
    let (v, w) = (value(x), value(y));
    assert(value(zero) == 0real && value(one) == 1real && value(num::<S>(2)) == 2real);
    assert(count::<S>(1) == one && count::<S>(2) == num::<S>(2));
    assert(frame_sum(track, f, 0) == zero);
    assert(frame_sum(track, f, 1) == zero.add_spec(x));
    assert(frame_sum(track, f, 2) == zero.add_spec(x).add_spec(y));
    about_sum(value, top, err, zero, 0real, 0real, x, v, 0real);
    let s = zero.add_spec(x);
    about_sum(value, top, err, s, v, err, y, w, 0real);
    let t = s.add_spec(y);
    let h = 1real / 2real;
    assert(about(value, one.div_spec(one), 1real, err));
    assert(about(value, one.div_spec(num(2)), h, err));
    product_from_zero(err, 1real / 16real - err);
    spread(1real / 16real, err, err);
    regroup(err, 2real, err);
    regroup(2real, err, err);
    about_product(value, top, err, s, v, err, 1real, one.div_spec(one), 1real, err, 1real);
    about_product(value, top, err, t, v + w, 2real * err, 2real, one.div_spec(num(2)), h, err, h);
}

} // verus!
