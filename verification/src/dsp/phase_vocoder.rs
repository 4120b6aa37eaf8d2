//! Time stretching in the frequency domain: the spectrum of one frame after
//! the other is given phases that fit the new pace. The transforms between
//! time and frequency are the caller's.

use vstd::prelude::*;
use vstd::std_specs::ops::{AddSpec, DivSpec, MulSpec, RemSpec, SubSpec};

use crate::dsp::planes::{fed, in_step, interleaved, joined, least, shaped, without_front, Planes};
use crate::dsp::stretch::{
    all_carried, all_emitted, overlap_add, StretchRamp, FRAME_SIZE, OVERLAP, SYNTHESIS_HOP, TRIM_AT,
};
use crate::dsp::wsola::mono;
use crate::reading::{about, about_sum, apart, reads, within_product, within_real};
use crate::sample::{
    finite, le, lt, num, real_like, same, total_arithmetic, whole, Sample,
};

pub mod laws;

verus! {

/// The frequencies of a frame's spectrum.
pub const NUM_BINS: usize = 1025;

/// What trimming leaves in front of the analysis.
pub const TRIM_KEEP_BEFORE: usize = 2048;

/// How much louder a frame got than the one before it, over the first `n`
/// frequencies.
pub open spec fn flux<S: Sample>(mags: Seq<S>, before: Seq<S>, n: nat) -> S
    decreases n,
{
    if n == 0 {
        num(0)
    } else {
        let k = n - 1;
        let rise = mags[k].sub_spec(before[k]);
        let sum = flux(mags, before, k as nat);
        if lt(num(0), rise) {
            sum.add_spec(rise)
        } else {
            sum
        }
    }
}

/// The channels of a spectrum added up.
pub open spec fn mono_spectrum<S: Sample>(mags: Seq<Seq<S>>) -> Seq<S> {
    Seq::new(NUM_BINS as nat, |k: int| mono(mags, k, mags.len()))
}

/// What is remembered to tell an attack from a steady sound.
pub struct Onsets<S> {
    /// The last frame's magnitudes, the channels added up.
    pub prev_mag_mono: Vec<S>,
    /// A slow average of how much louder frames got.
    pub flux_avg: S,
    /// Whether the last frame was an attack.
    pub was_transient: bool,
}

impl<S: Sample> Onsets<S> {
    /// Whether a frame is an attack: it gets louder by more than 1.7 times
    /// the average, and the frame before it was none.
    pub open spec fn strikes(self, mags: Seq<Seq<S>>) -> bool {
        let f = flux(mono_spectrum(mags), self.prev_mag_mono@, NUM_BINS as nat);
        &&& !self.was_transient
        &&& lt(self.flux_avg.mul_spec(num::<S>(17).div_spec(num(10))), f)
    }

    /// The average with one more frame: a twentieth of the way to it.
    pub open spec fn smoothed(self, mags: Seq<Seq<S>>) -> S {
        let f = flux(mono_spectrum(mags), self.prev_mag_mono@, NUM_BINS as nat);
        self.flux_avg.add_spec(
            f.sub_spec(self.flux_avg).mul_spec(num::<S>(1).div_spec(num(20))),
        )
    }

    /// `after` is what is remembered once a frame has gone by.
    pub open spec fn hears(self, first: bool, mags: Seq<Seq<S>>, after: Onsets<S>) -> bool {
        &&& after.prev_mag_mono@ == mono_spectrum(mags)
        &&& after.flux_avg == if first {
            self.flux_avg
        } else {
            self.smoothed(mags)
        }
        &&& after.was_transient == (!first && self.strikes(mags))
    }

    /// Whether a frame is an attack. The first frame, which has none before
    /// it to compare with, is not.
    pub fn detect_transient(&mut self, first: bool, mags: &Planes<S>) -> (r: bool)
        requires
            total_arithmetic::<S>(),
            old(self).prev_mag_mono@.len() == NUM_BINS,
            mags@.len() > 0,
            shaped(mags@, mags@.len(), NUM_BINS as nat),
        ensures
            r == (!first && old(self).strikes(mags@)),
            old(self).hears(first, mags@, *final(self)),
    {
        let now: Vec<S> = crate::dsp::wsola::mono_range(mags, 0, NUM_BINS);
        assert(now@ =~= mono_spectrum(mags@));
        if first {
            self.prev_mag_mono = now;
            self.was_transient = false;
            return false;
        }
        let zero: S = whole(0);
        let mut f: S = zero;
        let mut k: usize = 0;
        while k < NUM_BINS
            invariant
                total_arithmetic::<S>(),
                zero == num::<S>(0),
                k <= NUM_BINS,
                now@.len() == NUM_BINS,
                self.prev_mag_mono@.len() == NUM_BINS,
                f == flux(now@, self.prev_mag_mono@, k as nat),
            decreases NUM_BINS - k,
        {
            let rise: S = now[k] - self.prev_mag_mono[k];
            if zero < rise {
                f = f + rise;
            }
            k = k + 1;
        }
        let strikes: bool = !self.was_transient && self.flux_avg * (whole::<S>(17) / whole(10)) < f;
        self.flux_avg = self.flux_avg + (f - self.flux_avg) * (whole::<S>(1) / whole(20));
        self.prev_mag_mono = now;
        self.was_transient = strikes;
        strikes
    }
}

/// `x` brought to within half a turn of zero, where a turn is twice `pi`. Of
/// the two ends, `pi` is the one that is taken.
pub open spec fn wrapped<S: Sample>(x: S, pi: S) -> S {
    let turn = num::<S>(2).mul_spec(pi);
    let r = x.add_spec(pi).rem_spec(turn);
    let d = (if lt(r, num(0)) {
        r.add_spec(turn)
    } else {
        r
    }).sub_spec(pi);
    if le(d, num::<S>(0).sub_spec(pi)) {
        pi
    } else {
        d
    }
}

/// A phase that was brought to within half a turn lies above minus `pi`, and
/// not above `pi`, so long as its remainder is less than a turn.
pub proof fn phases_stay_within_half_a_turn<S: Sample>(x: S, pi: S)
    requires
        real_like::<S>(),
        finite(pi),
        lt(num(0), pi),
        ({
            let turn = num::<S>(2).mul_spec(pi);
            let r = x.add_spec(pi).rem_spec(turn);
            &&& finite(turn)
            &&& same(turn.sub_spec(pi), pi)
            &&& same(r, r)
            &&& le(r, turn)
        }),
    ensures
        lt(num::<S>(0).sub_spec(pi), wrapped(x, pi)),
        le(wrapped(x, pi), pi),
{
    let zero = num::<S>(0);
    let turn = num::<S>(2).mul_spec(pi);
    let r = x.add_spec(pi).rem_spec(turn);
    assert(finite(zero));
    // Minus `pi` is below zero, and so below `pi`.
    assert(le(zero.sub_spec(pi), zero));
    assert(lt(zero.sub_spec(pi), pi));
    let up = if lt(r, zero) {
        r.add_spec(turn)
    } else {
        r
    };
    assert(le(up, turn)) by {
        if lt(r, zero) {
            assert(le(r.add_spec(turn), zero.add_spec(turn)));
            assert(same(zero.add_spec(turn), turn));
        }
    }
    assert(le(up.sub_spec(pi), turn.sub_spec(pi)));
}

/// The phase that frequency `k` goes on with: it moves on for the length of
/// a synthesis hop at the pace that it moved from the last frame to this one.
pub open spec fn next_phase<S: Sample>(out: S, prev: S, phase: S, k: int, hop: int, pi: S) -> S {
    let omega = num::<S>(2).mul_spec(pi).mul_spec(num(k as i16)).div_spec(num(2048));
    let h = num::<S>(hop as i16);
    let d = wrapped(phase.sub_spec(prev).sub_spec(omega.mul_spec(h)), pi);
    out.add_spec(omega.add_spec(d.div_spec(h)).mul_spec(num(512)))
}

/// The phase that frequency `k` goes on with.
pub fn advance_phase<S: Sample>(out: S, prev: S, phase: S, k: usize, hop: usize, pi: S) -> (r: S)
    requires
        total_arithmetic::<S>(),
        k < NUM_BINS,
        hop <= 4096,
    ensures
        r == next_phase(out, prev, phase, k as int, hop as int, pi),
{
    let turn: S = whole::<S>(2) * pi;
    let omega: S = turn * whole(k as i16) / whole(2048);
    let h: S = whole(hop as i16);
    let x: S = phase - prev - omega * h;
    let rest: S = (x + pi) % turn;
    let wrapped: S = (if rest < whole(0) {
        rest + turn
    } else {
        rest
    }) - pi;
    let d: S = if wrapped <= whole::<S>(0) - pi {
        pi
    } else {
        wrapped
    };
    out + (omega + d / h) * whole(512)
}

/// The largest of the first `n` magnitudes, and zero.
pub open spec fn loudest<S: Sample>(m: Seq<S>, n: nat) -> S
    decreases n,
{
    if n == 0 {
        num(0)
    } else {
        let rest = loudest(m, (n - 1) as nat);
        if lt(rest, m[n - 1]) {
            m[n - 1]
        } else {
            rest
        }
    }
}

/// The magnitude that a peak must exceed: one ten-thousandth of the largest.
pub open spec fn peak_floor<S: Sample>(m: Seq<S>) -> S {
    loudest(m, NUM_BINS as nat).mul_spec(num::<S>(1).div_spec(num(10000)))
}

/// Whether frequency `k` stands out over its two neighbours on either side.
pub open spec fn is_peak<S: Sample>(m: Seq<S>, floor: S, k: int) -> bool {
    &&& 2 <= k < NUM_BINS - 2
    &&& lt(m[k - 1], m[k])
    &&& lt(m[k + 1], m[k])
    &&& lt(m[k - 2], m[k])
    &&& lt(m[k + 2], m[k])
    &&& lt(floor, m[k])
}

/// The peaks among the first `n` frequencies, in order.
pub open spec fn peaks<S: Sample>(m: Seq<S>, floor: S, n: nat) -> Seq<int>
    decreases n,
{
    if n == 0 {
        Seq::empty()
    } else if is_peak(m, floor, n - 1) {
        peaks(m, floor, (n - 1) as nat).push(n - 1)
    } else {
        peaks(m, floor, (n - 1) as nat)
    }
}

/// The peak that frequency `k` belongs to, among those from the `p`th on:
/// each peak reaches half the way to the next one.
pub open spec fn owner(peaks: Seq<int>, p: int, k: int) -> int
    decreases peaks.len() - p,
{
    if p + 1 < peaks.len() && k > (peaks[p] + peaks[p + 1]) / 2 {
        owner(peaks, p + 1, k)
    } else {
        peaks[p]
    }
}

/// The phases with every frequency tied to the peak it belongs to: the
/// distance between the two phases is that of the frame itself.
pub open spec fn locked<S: Sample>(out: Seq<S>, m: Seq<S>, cur: Seq<S>) -> Seq<S> {
    let all = peaks(m, peak_floor(m), NUM_BINS as nat);
    if all.len() == 0 {
        out
    } else {
        Seq::new(
            out.len(),
            |k: int|
                {
                    let p = owner(all, 0, k);
                    if k == p {
                        out[k]
                    } else {
                        out[p].add_spec(cur[k].sub_spec(cur[p]))
                    }
                },
        )
    }
}

/// The peaks of a spectrum, in order.
fn find_peaks<S: Sample>(m: &Vec<S>) -> (r: Vec<usize>)
    requires
        total_arithmetic::<S>(),
        m@.len() == NUM_BINS,
    ensures
        r@.map_values(|k: usize| k as int) == peaks(m@, peak_floor(m@), NUM_BINS as nat),
        forall|p: int| 0 <= p < r@.len() ==> #[trigger] r@[p] < NUM_BINS,
{
    let mut top: S = whole(0);
    let mut i: usize = 0;
    while i < NUM_BINS
        invariant
            total_arithmetic::<S>(),
            i <= NUM_BINS,
            m@.len() == NUM_BINS,
            top == loudest(m@, i as nat),
        decreases NUM_BINS - i,
    {
        if top < m[i] {
            top = m[i];
        }
        i = i + 1;
    }
    let floor: S = top * (whole::<S>(1) / whole(10000));
    let mut r: Vec<usize> = Vec::new();
    let mut k: usize = 0;
    assert(r@.map_values(|k: usize| k as int) =~= Seq::<int>::empty());
    while k < NUM_BINS
        invariant
            total_arithmetic::<S>(),
            k <= NUM_BINS,
            m@.len() == NUM_BINS,
            floor == peak_floor(m@),
            r@.map_values(|k: usize| k as int) == peaks(m@, floor, k as nat),
            forall|p: int| 0 <= p < r@.len() ==> #[trigger] r@[p] < NUM_BINS,
        decreases NUM_BINS - k,
    {
        if 2 <= k && k < NUM_BINS - 2 && m[k - 1] < m[k] && m[k + 1] < m[k] && m[k - 2] < m[k]
            && m[k + 2] < m[k] && floor < m[k] {
            let ghost before = r@;
            r.push(k);
            assert(r@.map_values(|k: usize| k as int) =~= before.map_values(
                |k: usize| k as int,
            ).push(k as int));
        }
        k = k + 1;
    }
    r
}

/// Ties every frequency's phase to the peak that it belongs to.
pub fn phase_lock<S: Sample>(out: &Vec<S>, m: &Vec<S>, cur: &Vec<S>) -> (r: Vec<S>)
    requires
        total_arithmetic::<S>(),
        out@.len() == NUM_BINS,
        m@.len() == NUM_BINS,
        cur@.len() == NUM_BINS,
    ensures
        r@ == locked(out@, m@, cur@),
{
    let found: Vec<usize> = find_peaks(m);
    let ghost all = found@.map_values(|k: usize| k as int);
    let n: usize = found.len();
    let mut r: Vec<S> = Vec::new();
    let mut p: usize = 0;
    while r.len() < NUM_BINS
        invariant
            total_arithmetic::<S>(),
            out@.len() == NUM_BINS,
            m@.len() == NUM_BINS,
            cur@.len() == NUM_BINS,
            n == found@.len(),
            all == found@.map_values(|k: usize| k as int),
            all == peaks(m@, peak_floor(m@), NUM_BINS as nat),
            forall|q: int| 0 <= q < found@.len() ==> #[trigger] found@[q] < NUM_BINS,
            r@.len() <= NUM_BINS,
            n > 0 ==> p < n,
            forall|k: int| r@.len() <= k ==> #[trigger] owner(all, p as int, k) == owner(all, 0, k),
            forall|k: int| 0 <= k < r@.len() ==> #[trigger] r@[k] == locked(out@, m@, cur@)[k],
        decreases NUM_BINS - r@.len(), n - p,
    {
        let k: usize = r.len();
        if n == 0 {
            r.push(out[k]);
        } else if p + 1 < n && k > (found[p] + found[p + 1]) / 2 {
            proof {
                assert(all[p as int] == found@[p as int]);
                assert(all[p + 1] == found@[p + 1]);
                assert forall|j: int| k <= j implies #[trigger] owner(all, p + 1, j) == owner(
                    all,
                    0,
                    j,
                ) by {
                    assert(owner(all, p as int, j) == owner(all, 0, j));
                }
            }
            p = p + 1;
        } else {
            let peak: usize = found[p];
            proof {
                assert(all[p as int] == found@[p as int]);
                if p + 1 < n {
                    assert(all[p + 1] == found@[p + 1]);
                }
                assert(owner(all, p as int, k as int) == owner(all, 0, k as int));
            }
            if k == peak {
                r.push(out[k]);
            } else {
                r.push(out[peak] + (cur[k] - cur[peak]));
            }
        }
    }
    assert(r@ =~= locked(out@, m@, cur@));
    r
}

/// The state of the stretcher's streams in mathematical terms.
pub struct VocoderModel<S> {
    /// The input that is still needed, by channel.
    pub input: Seq<Seq<S>>,
    /// Where the next frame starts in it.
    pub pos: int,
    /// What later frames still add to.
    pub tail: Seq<Seq<S>>,
    /// Finished output, by channel.
    pub output: Seq<Seq<S>>,
    pub window: Seq<S>,
    pub ramp: StretchRamp<S>,
}

impl<S: Sample> VocoderModel<S> {
    /// Every channel is as long as the others.
    pub open spec fn wf(self) -> bool {
        &&& in_step(self.input)
        &&& in_step(self.output)
        &&& self.output.len() == self.input.len()
        &&& shaped(self.tail, self.input.len(), OVERLAP as nat)
        &&& self.window.len() == FRAME_SIZE
        &&& 0 <= self.pos <= TRIM_AT
        &&& self.ramp.wf()
    }

    /// Enough input for a frame.
    pub open spec fn can_step(self) -> bool {
        self.pos + FRAME_SIZE <= self.input[0].len()
    }

    /// The stretch one step nearer to its target.
    pub open spec fn ramped(self) -> VocoderModel<S> {
        VocoderModel { ramp: self.ramp.advanced(), ..self }
    }

    /// The next frame of each channel, under the window.
    pub open spec fn analysed(self) -> Seq<Seq<S>> {
        Seq::new(
            self.input.len(),
            |c: int|
                Seq::new(
                    FRAME_SIZE as nat,
                    |i: int| self.input[c][self.pos + i].mul_spec(self.window[i]),
                ),
        )
    }

    /// Frames that came back from the inverse transform, scaled by their
    /// length and under the window.
    pub open spec fn shaped_frames(self, frames: Seq<Seq<S>>) -> Seq<Seq<S>> {
        let scale = num::<S>(1).div_spec(num(2048));
        Seq::new(
            frames.len(),
            |c: int|
                Seq::new(
                    FRAME_SIZE as nat,
                    |i: int| frames[c][i].mul_spec(scale).mul_spec(self.window[i]),
                ),
        )
    }

    /// The frames that go from the front of the input after a step.
    pub open spec fn trimmed(self) -> int {
        if self.pos + self.ramp.analysis_hop > TRIM_AT {
            self.pos + self.ramp.analysis_hop - TRIM_KEEP_BEFORE
        } else {
            0
        }
    }

    /// The frames are added to the output, and the analysis moves on by its
    /// hop.
    pub open spec fn stepped(self, frames: Seq<Seq<S>>) -> VocoderModel<S> {
        let shaped = self.shaped_frames(frames);
        VocoderModel {
            input: without_front(self.input, self.trimmed()),
            pos: self.pos + self.ramp.analysis_hop - self.trimmed(),
            tail: all_carried(self.tail, shaped),
            output: all_emitted(self.output, self.tail, shaped),
            ..self
        }
    }

    /// Input appended.
    pub open spec fn fed(self, input: Seq<S>, frames: nat) -> VocoderModel<S> {
        VocoderModel { input: fed(self.input, input, frames), ..self }
    }

    /// Output taken from the front.
    pub open spec fn drained(self, n: nat) -> VocoderModel<S> {
        VocoderModel { output: without_front(self.output, n as int), ..self }
    }
}

/// The phases of all frequencies, by channel, and what tells attacks from
/// steady sounds.
pub struct Phases<S> {
    /// The phases of the last frame.
    pub prev_phase: Planes<S>,
    /// The phases of the output.
    pub out_phase: Planes<S>,
    pub prev_phase_valid: bool,
    pub onsets: Onsets<S>,
}

impl<S: Sample> Phases<S> {
    /// One phase for each frequency of each channel.
    pub open spec fn wf(self, channels: nat) -> bool {
        &&& channels > 0
        &&& shaped(self.prev_phase@, channels, NUM_BINS as nat)
        &&& shaped(self.out_phase@, channels, NUM_BINS as nat)
        &&& self.onsets.prev_mag_mono@.len() == NUM_BINS
    }

    /// Whether a frame keeps its own phases: it is the first one, or an
    /// attack.
    pub open spec fn passes(self, mags: Seq<Seq<S>>) -> bool {
        !self.prev_phase_valid || self.onsets.strikes(mags)
    }

    /// The phases that a channel goes on with, before they are tied to
    /// peaks.
    pub open spec fn moved(self, phases: Seq<Seq<S>>, c: int, hop: int, pi: S) -> Seq<S> {
        Seq::new(
            NUM_BINS as nat,
            |k: int|
                next_phase(
                    self.out_phase@[c][k],
                    self.prev_phase@[c][k],
                    phases[c][k],
                    k,
                    hop,
                    pi,
                ),
        )
    }

    /// The phases of the output for the next frame.
    pub open spec fn next_out(
        self,
        mags: Seq<Seq<S>>,
        phases: Seq<Seq<S>>,
        hop: int,
        pi: S,
    ) -> Seq<Seq<S>> {
        Seq::new(
            phases.len(),
            |c: int|
                if self.passes(mags) {
                    phases[c]
                } else {
                    locked(self.moved(phases, c, hop, pi), mags[c], phases[c])
                },
        )
    }

    /// Takes the magnitudes and phases of the next frame, and decides on the
    /// phases of the output. An attack and the first frame keep their own.
    /// Otherwise each frequency goes on at its own pace, and is tied to the
    /// peak it belongs to.
    pub fn advance(&mut self, mags: &Planes<S>, phases: Planes<S>, hop: usize, pi: S)
        requires
            total_arithmetic::<S>(),
            old(self).wf(phases@.len()),
            shaped(mags@, phases@.len(), NUM_BINS as nat),
            shaped(phases@, phases@.len(), NUM_BINS as nat),
            hop <= 4096,
        ensures
            final(self).wf(phases@.len()),
            final(self).out_phase@ == old(self).next_out(mags@, phases@, hop as int, pi),
            final(self).prev_phase@ == phases@,
            final(self).prev_phase_valid == old(self).prev_phase_valid,
            old(self).onsets.hears(!old(self).prev_phase_valid, mags@, final(self).onsets),
    {
        let channels: usize = phases.chans.len();
        let transient: bool = self.onsets.detect_transient(!self.prev_phase_valid, mags);
        let keep: bool = transient || !self.prev_phase_valid;
        let mut c: usize = 0;
        while c < channels
            invariant
                total_arithmetic::<S>(),
                c <= channels,
                channels == phases@.len(),
                shaped(mags@, phases@.len(), NUM_BINS as nat),
                shaped(phases@, phases@.len(), NUM_BINS as nat),
                old(self).wf(phases@.len()),
                hop <= 4096,
                keep == old(self).passes(mags@),
                self.prev_phase == old(self).prev_phase,
                self.prev_phase_valid == old(self).prev_phase_valid,
                old(self).onsets.hears(!old(self).prev_phase_valid, mags@, self.onsets),
                self.out_phase@.len() == channels,
                forall|d: int|
                    0 <= d < c ==> #[trigger] self.out_phase@[d] == old(self).next_out(
                        mags@,
                        phases@,
                        hop as int,
                        pi,
                    )[d],
                forall|d: int|
                    c <= d < channels ==> #[trigger] self.out_phase@[d] == old(self).out_phase@[d],
            decreases channels - c,
        {
            assert(phases@[c as int].len() == NUM_BINS);
            assert(mags@[c as int].len() == NUM_BINS);
            assert(phases.chans@[c as int]@ == phases@[c as int]);
            assert(mags.chans@[c as int]@ == mags@[c as int]);
            assert(self.out_phase@[c as int] == old(self).out_phase@[c as int]);
            if keep {
                let own: Vec<S> = copied(&phases.chans[c]);
                self.out_phase.set_channel(c, own);
            } else {
                let mut next: Vec<S> = Vec::new();
                while next.len() < NUM_BINS
                    invariant
                        total_arithmetic::<S>(),
                        hop <= 4096,
                        c < channels,
                        channels == phases@.len(),
                        channels == self.out_phase@.len(),
                        self.prev_phase == old(self).prev_phase,
                        old(self).wf(phases@.len()),
                        self.out_phase@[c as int] == old(self).out_phase@[c as int],
                        shaped(phases@, phases@.len(), NUM_BINS as nat),
                        next@.len() <= NUM_BINS,
                        next@ =~= old(self).moved(phases@, c as int, hop as int, pi).take(
                            next@.len() as int,
                        ),
                    decreases NUM_BINS - next@.len(),
                {
                    let k: usize = next.len();
                    assert(phases@[c as int].len() == NUM_BINS);
                    assert(old(self).out_phase@[c as int].len() == NUM_BINS);
                    assert(old(self).prev_phase@[c as int].len() == NUM_BINS);
                    let out: S = self.out_phase.get(c, k);
                    let prev: S = self.prev_phase.get(c, k);
                    let cur: S = phases.get(c, k);
                    next.push(advance_phase(out, prev, cur, k, hop, pi));
                }
                assert(next@ =~= old(self).moved(phases@, c as int, hop as int, pi));
                let tied: Vec<S> = phase_lock(&next, &mags.chans[c], &phases.chans[c]);
                self.out_phase.set_channel(c, tied);
            }
            c = c + 1;
        }
        self.prev_phase = phases;
        assert(self.out_phase@ =~= old(self).next_out(mags@, phases@, hop as int, pi));
        assert forall|d: int| 0 <= d < channels implies (#[trigger] self.out_phase@[d]).len()
            == NUM_BINS by {
            assert(phases@[d].len() == NUM_BINS);
        }
    }
}

/// The same samples once more.
fn copied<S: Sample>(v: &Vec<S>) -> (r: Vec<S>)
    ensures
        r@ == v@,
{
    let mut r: Vec<S> = Vec::new();
    let mut i: usize = 0;
    while i < v.len()
        invariant
            i <= v@.len(),
            r@ =~= v@.take(i as int),
        decreases v@.len() - i,
    {
        r.push(v[i]);
        i = i + 1;
    }
    assert(r@ =~= v@);
    r
}

/// A streaming time stretcher that works on spectra. All channels share one
/// timeline, and each has its own phases.
pub struct PhaseVocoder<S> {
    pub channels: usize,
    pub in_buf: Planes<S>,
    pub analysis_pos: usize,
    pub synth_tail: Planes<S>,
    pub out_queue: Planes<S>,
    pub window: Vec<S>,
    pub phases: Phases<S>,
    pub ramp: StretchRamp<S>,
}

impl<S: Sample> View for PhaseVocoder<S> {
    type V = VocoderModel<S>;

    open spec fn view(&self) -> VocoderModel<S> {
        VocoderModel {
            input: self.in_buf@,
            pos: self.analysis_pos as int,
            tail: self.synth_tail@,
            output: self.out_queue@,
            window: self.window@,
            ramp: self.ramp,
        }
    }
}

/// Steps keep the state in order.
pub proof fn step_keeps_order<S: Sample>(m: VocoderModel<S>, frames: Seq<Seq<S>>)
    requires
        m.wf(),
        m.can_step(),
        frames.len() == m.input.len(),
    ensures
        m.stepped(frames).wf(),
        m.stepped(frames).output[0].len() == m.output[0].len() + SYNTHESIS_HOP,
        0 <= m.trimmed() <= m.input[0].len(),
{
}

/// `next` comes one step after `m`: the frames were added, the analysis went on
/// by one synthesis hop, and since then only more input came in and output was
/// taken.
pub open spec fn follows<S: Sample>(
    m: VocoderModel<S>,
    frames: Seq<Seq<S>>,
    next: VocoderModel<S>,
    c: int,
) -> bool {
    let after = m.stepped(frames);
    &&& m.ramp.analysis_hop == SYNTHESIS_HOP
    &&& next.tail == after.tail
    &&& next.window == after.window
    &&& next.pos == after.pos
    &&& next.input.len() == after.input.len()
    &&& after.input[c].is_prefix_of(next.input[c])
}

/// The frames that came back on channel `c` are those that were analysed, 2048
/// times as large: the inverse transform of the unchanged spectrum.
pub open spec fn unchanged<S: Sample>(
    value: spec_fn(S) -> real,
    m: VocoderModel<S>,
    frames: Seq<Seq<S>>,
    c: int,
) -> bool {
    &&& frames.len() == m.input.len()
    &&& forall|i: int|
        0 <= i < FRAME_SIZE ==> finite(#[trigger] frames[c][i]) && value(frames[c][i]) == 2048real
            * value(m.analysed()[c][i])
}

/// The squares of a window at the places `j` of its four quarters, added up.
pub open spec fn quartered_power<S: Sample>(
    value: spec_fn(S) -> real,
    window: Seq<S>,
    j: int,
) -> real {
    value(window[j]) * value(window[j]) + value(window[512 + j]) * value(window[512 + j]) + value(
        window[1024 + j],
    ) * value(window[1024 + j]) + value(window[1536 + j]) * value(window[1536 + j])
}

/// Sound whose spectra are left as they are comes out as it went in, where four
/// frames cover it: the window is applied twice, and its squares add up to one
/// at the hop.
pub proof fn unchanged_spectra_give_back_the_input<S: Sample>(
    value: spec_fn(S) -> real,
    top: real,
    err: real,
    slack: real,
    states: Seq<VocoderModel<S>>,
    frames: Seq<Seq<Seq<S>>>,
    c: int,
    j: int,
)
    requires
        reads(value, top, err),
        top >= 8real,
        err <= 1real / 16real,
        value(num::<S>(1).div_spec(num(2048))) == 1real / 2048real,
        states.len() == 4,
        frames.len() == 4,
        states[0].wf(),
        0 <= c < states[0].input.len(),
        0 <= j < SYNTHESIS_HOP,
        forall|k: int|
            0 <= k < 4 ==> {
                &&& (#[trigger] states[k]).can_step()
                &&& in_step(states[k].input)
                &&& unchanged(value, states[k], frames[k], c)
            },
        follows(states[0], frames[0], states[1], c),
        follows(states[1], frames[1], states[2], c),
        follows(states[2], frames[2], states[3], c),
        forall|i: int|
            0 <= i < FRAME_SIZE ==> finite(#[trigger] states[0].window[i]) && within_real(
                value(states[0].window[i]),
                1real,
            ),
        states[3].output.len() == states[3].input.len(),
        finite(states[3].input[c][states[3].pos + j]),
        within_real(value(states[3].input[c][states[3].pos + j]), 1real),
        apart(quartered_power(value, states[0].window, j), 1real) <= slack,
    ensures
        ({
            let before = states[3].output[c];
            let after = states[3].stepped(frames[3]).output[c];
            &&& after.len() == before.len() + SYNTHESIS_HOP
            &&& apart(
                value(after[before.len() + j]),
                value(states[3].input[c][states[3].pos + j]),
            ) <= 16real * err + slack
        }),
{
    let w = states[0].window;
    let x = states[3].input[c][states[3].pos + j];
    let v = value(x);
    let (m0, m1, m2, m3) = (states[0], states[1], states[2], states[3]);
    assert(m0.can_step() && m1.can_step() && m2.can_step() && m3.can_step());
    // The same sample of the input lies in all four frames.
    one_step(m0, frames[0], m1, c, 1024 + j);
    one_step(m1, frames[1], m2, c, 512 + j);
    one_step(m2, frames[2], m3, c, j);
    let g0 = m0.shaped_frames(frames[0])[c][1536 + j];
    let g1 = m1.shaped_frames(frames[1])[c][1024 + j];
    let g2 = m2.shaped_frames(frames[2])[c][512 + j];
    let g3 = m3.shaped_frames(frames[3])[c][j];
    windowed_twice(value, top, err, m0, frames[0], c, 1536 + j);
    windowed_twice(value, top, err, m1, frames[1], c, 1024 + j);
    windowed_twice(value, top, err, m2, frames[2], c, 512 + j);
    windowed_twice(value, top, err, m3, frames[3], c, j);
    let before = m3.output[c];
    let after = m3.stepped(frames[3]).output[c];
    assert(after[before.len() + j] == m3.tail[c][j].add_spec(g3));
    four_parts(
        value,
        top,
        err,
        seq![g0, g1, g2, g3],
        v,
        seq![value(w[1536 + j]), value(w[1024 + j]), value(w[512 + j]), value(w[j])],
    );
    let total = quartered_power(value, w, j);
    assert(apart(v * total, v) <= slack) by {
        let d = total - 1real;
        assert(v * total - v == v * d) by (nonlinear_arith)
            requires
                d == total - 1real,
        ;
        within_product(v, d, 1real, slack);
        assert(1real * slack == slack);
    }
}

/// What one step does to the input in sight and to what is carried on.
proof fn one_step<S: Sample>(
    m: VocoderModel<S>,
    frames: Seq<Seq<S>>,
    next: VocoderModel<S>,
    c: int,
    i: int,
)
    requires
        follows(m, frames, next, c),
        m.can_step(),
        in_step(m.input),
        m.tail.len() == m.input.len(),
        frames.len() == m.input.len(),
        0 <= m.pos <= TRIM_AT,
        0 <= c < m.input.len(),
        0 <= i < OVERLAP,
    ensures
        next.input[c][next.pos + i] == m.input[c][m.pos + 512 + i],
        next.tail[c][i] == (if i < 1024 {
            m.tail[c][i + 512]
        } else {
            num::<S>(0)
        }).add_spec(m.shaped_frames(frames)[c][i + 512]),
        0 <= next.pos <= TRIM_AT,
        next.tail.len() == next.input.len(),
        next.input.len() == m.input.len(),
{
    let after = m.stepped(frames);
    assert(m.input[c].len() == m.input[0].len());
    assert(after.input[c] == m.input[c].skip(m.trimmed()));
    assert(after.input[c][after.pos + i] == m.input[c][m.pos + 512 + i]);
    assert(next.input[c].subrange(0, after.input[c].len() as int)[after.pos + i]
        == next.input[c][after.pos + i]);
}

/// Four parts of a sample, each under a square, added one after the other.
proof fn four_parts<S: Sample>(
    value: spec_fn(S) -> real,
    top: real,
    err: real,
    parts: Seq<S>,
    v: real,
    w: Seq<real>,
)
    requires
        reads(value, top, err),
        top >= 8real,
        err <= 1real / 16real,
        parts.len() == 4,
        w.len() == 4,
        within_real(v, 1real),
        forall|k: int| 0 <= k < 4 ==> within_real(#[trigger] w[k], 1real),
        forall|k: int|
            0 <= k < 4 ==> about(value, #[trigger] parts[k], v * (w[k] * w[k]), 3real * err),
    ensures
        about(
            value,
            num::<S>(0).add_spec(parts[0]).add_spec(parts[1]).add_spec(parts[2]).add_spec(parts[3]),
            v * (w[3] * w[3] + w[2] * w[2] + w[1] * w[1] + w[0] * w[0]),
            16real * err,
        ),
{
    let zero = num::<S>(0);
    let (p0, p1, p2, p3) = (w[0] * w[0], w[1] * w[1], w[2] * w[2], w[3] * w[3]);
    square_within(w[0], v);
    square_within(w[1], v);
    square_within(w[2], v);
    square_within(w[3], v);
    assert(about(value, parts[0], v * p0, 3real * err));
    assert(about(value, parts[1], v * p1, 3real * err));
    assert(about(value, parts[2], v * p2, 3real * err));
    assert(about(value, parts[3], v * p3, 3real * err));
    let e = 3real * err;
    about_sum(value, top, err, zero, 0real, 0real, parts[0], v * p0, e);
    let t0 = zero.add_spec(parts[0]);
    let y0 = v * p0;
    about_sum(value, top, err, t0, y0, 4real * err, parts[1], v * p1, e);
    let t1 = t0.add_spec(parts[1]);
    let y1 = y0 + v * p1;
    about_sum(value, top, err, t1, y1, 8real * err, parts[2], v * p2, e);
    let t2 = t1.add_spec(parts[2]);
    let y2 = y1 + v * p2;
    about_sum(value, top, err, t2, y2, 12real * err, parts[3], v * p3, e);
    assert(y2 + v * p3 == v * (p3 + p2 + p1 + p0)) by (nonlinear_arith)
        requires
            y2 == v * p0 + v * p1 + v * p2,
    ;
}

proof fn square_within(w: real, v: real)
    requires
        within_real(w, 1real),
        within_real(v, 1real),
    ensures
        within_real(v * (w * w), 1real),
{
    within_product(w, w, 1real, 1real);
    within_product(v, w * w, 1real, 1real);
}

/// A sample that was analysed and came back stands for itself times the square
/// of the window.
proof fn windowed_twice<S: Sample>(
    value: spec_fn(S) -> real,
    top: real,
    err: real,
    m: VocoderModel<S>,
    frames: Seq<Seq<S>>,
    c: int,
    i: int,
)
    requires
        reads(value, top, err),
        top >= 8real,
        err <= 1real / 16real,
        value(num::<S>(1).div_spec(num(2048))) == 1real / 2048real,
        0 <= i < FRAME_SIZE,
        0 <= c < m.input.len(),
        unchanged(value, m, frames, c),
        finite(m.window[i]),
        within_real(value(m.window[i]), 1real),
        finite(m.input[c][m.pos + i]),
        within_real(value(m.input[c][m.pos + i]), 1real),
    ensures
        about(
            value,
            m.shaped_frames(frames)[c][i],
            value(m.input[c][m.pos + i]) * (value(m.window[i]) * value(m.window[i])),
            3real * err,
        ),
{
    let w = value(m.window[i]);
    let v = value(m.input[c][m.pos + i]);
    let scale = num::<S>(1).div_spec(num(2048));
    let a = m.analysed()[c][i];
    let f = frames[c][i];
    within_product(v, w, 1real, 1real);
    assert(about(value, a, v * w, err));
    assert(finite(f) && value(f) == 2048real * value(a));
    assert(value(num::<S>(1)) == 1real && value(num::<S>(2048)) == 2048real);
    assert(within_real(1real / 2048real, top));
    assert(finite(scale));
    assert(value(f) * value(scale) == value(a)) by (nonlinear_arith)
        requires
            value(f) == 2048real * value(a),
            value(scale) == 1real / 2048real,
    ;
    let g = f.mul_spec(scale);
    assert(about(value, g, value(a), err));
    assert(about(value, g, v * w, 2real * err));
    let d = value(g) - v * w;
    assert(value(g) * w == v * (w * w) + d * w) by (nonlinear_arith)
        requires
            d == value(g) - v * w,
    ;
    within_product(d, w, 2real * err, 1real);
    square_within(w, v);
    assert(2real * err * 1real == 2real * err);
    assert(m.shaped_frames(frames)[c][i] == g.mul_spec(m.window[i]));
}

impl<S: Sample> PhaseVocoder<S> {
    /// The state is in order, and made for `channels` channels.
    pub open spec fn wf(self) -> bool {
        &&& self@.wf()
        &&& self.channels == self@.input.len()
        &&& self.phases.wf(self.channels as nat)
    }

    /// A stretcher at no stretch that has heard nothing yet. `window` is the
    /// shape of a frame, scaled so that windowing twice and overlapping adds
    /// up to what was there.
    pub fn new(channels: usize, window: Vec<S>) -> (r: PhaseVocoder<S>)
        requires
            total_arithmetic::<S>(),
            channels > 0,
            window@.len() == FRAME_SIZE,
        ensures
            r.wf(),
            r.is_fresh(channels),
            r.window == window,
            r.ramp == (StretchRamp {
                target: num::<S>(1),
                stretch: num::<S>(1),
                analysis_hop: SYNTHESIS_HOP,
            }),
            forall|k: int|
                0 <= k < NUM_BINS ==> #[trigger] r.phases.onsets.prev_mag_mono@[k] == num::<S>(0),
            r.phases.onsets.flux_avg == num::<S>(0),
            !r.phases.onsets.was_transient,
    {
        PhaseVocoder {
            channels,
            in_buf: Planes::zeros(channels, 0),
            analysis_pos: 0,
            synth_tail: Planes::zeros(channels, OVERLAP),
            out_queue: Planes::zeros(channels, 0),
            window,
            phases: Phases {
                prev_phase: Planes::zeros(channels, NUM_BINS),
                out_phase: Planes::zeros(channels, NUM_BINS),
                prev_phase_valid: false,
                onsets: Onsets {
                    prev_mag_mono: zeros(NUM_BINS),
                    flux_avg: whole(0),
                    was_transient: false,
                },
            },
            ramp: StretchRamp::new(),
        }
    }

    /// Nothing was heard and nothing is left to play.
    pub open spec fn is_fresh(self, channels: usize) -> bool {
        &&& self.channels == channels
        &&& shaped(self@.input, channels as nat, 0)
        &&& shaped(self@.output, channels as nat, 0)
        &&& forall|c: int, i: int|
            0 <= c < channels && 0 <= i < OVERLAP ==> #[trigger] self@.tail[c][i] == num::<S>(0)
        &&& forall|c: int, k: int|
            0 <= c < channels && 0 <= k < NUM_BINS ==> #[trigger] self.phases.prev_phase@[c][k]
                == num::<S>(0)
        &&& forall|c: int, k: int|
            0 <= c < channels && 0 <= k < NUM_BINS ==> #[trigger] self.phases.out_phase@[c][k]
                == num::<S>(0)
        &&& self@.pos == 0
        &&& !self.phases.prev_phase_valid
    }

    /// Asks for another stretch. The stretch in use moves there with the
    /// coming steps.
    pub fn set_stretch(&mut self, stretch: S)
        requires
            total_arithmetic::<S>(),
            old(self).wf(),
        ensures
            final(self).wf(),
            final(self).phases == old(self).phases,
            final(self)@ == (VocoderModel { ramp: old(self)@.ramp.aimed(stretch), ..old(self)@ }),
    {
        self.ramp.set_stretch(stretch);
    }

    /// The stretch that was asked for last.
    pub fn target_stretch(&self) -> (r: S)
        ensures
            r == self@.ramp.target,
    {
        self.ramp.target
    }

    /// The larger of the stretch in use and the one asked for.
    pub fn effective_stretch(&self) -> (r: S)
        requires
            total_arithmetic::<S>(),
        ensures
            r == self@.ramp.effective(),
    {
        self.ramp.effective_stretch()
    }

    /// Takes in `frames` interleaved frames.
    pub fn ingest(&mut self, input: &[S], frames: usize)
        requires
            old(self).wf(),
            frames * old(self).channels <= input@.len(),
        ensures
            final(self).wf(),
            final(self)@ == old(self)@.fed(input@, frames as nat),
            final(self).channels == old(self).channels,
            final(self).phases == old(self).phases,
    {
        self.in_buf.feed(input, frames);
    }

    /// How many frames of output are waiting.
    pub fn output_available(&self) -> (r: usize)
        requires
            self.wf(),
        ensures
            r == self@.output[0].len(),
    {
        self.out_queue.frames()
    }

    /// Takes up to `max_out` frames of output, interleaved. The result is how
    /// many.
    pub fn drain_output(&mut self, output: &mut [S], max_out: usize) -> (r: usize)
        requires
            old(self).wf(),
            max_out * old(self).channels <= old(output)@.len(),
        ensures
            final(self).wf(),
            final(self).channels == old(self).channels,
            final(self).phases == old(self).phases,
            r == least(old(self)@.output[0].len(), max_out as nat),
            r * old(self).channels <= old(output)@.len(),
            final(output)@.len() == old(output)@.len(),
            final(output)@.take(r * old(self).channels) == interleaved(
                old(self)@.output,
                r as nat,
            ),
            final(output)@.skip(r * old(self).channels) == old(output)@.skip(
                r * old(self).channels,
            ),
            final(self)@ == old(self)@.drained(r as nat),
    {
        let queued: usize = self.out_queue.frames();
        let n: usize = if queued <= max_out {
            queued
        } else {
            max_out
        };
        proof {
            vstd::arithmetic::mul::lemma_mul_inequality(
                n as int,
                max_out as int,
                self.channels as int,
            );
        }
        self.out_queue.write_interleaved(output, n);
        self.out_queue.drop_front(n);
        n
    }

    /// Takes up to `max_out` frames of output to the end of `dst`. The result
    /// is how many.
    pub fn drain_output_planar(&mut self, dst: &mut Planes<S>, max_out: usize) -> (r: usize)
        requires
            old(self).wf(),
            old(dst)@.len() == old(self).channels,
        ensures
            final(self).wf(),
            final(self).channels == old(self).channels,
            final(self).phases == old(self).phases,
            r == least(old(self)@.output[0].len(), max_out as nat),
            final(dst)@ == joined(old(dst)@, old(self)@.output, r as int),
            final(self)@ == old(self)@.drained(r as nat),
    {
        let queued: usize = self.out_queue.frames();
        let n: usize = if queued <= max_out {
            queued
        } else {
            max_out
        };
        dst.join(&self.out_queue, n);
        self.out_queue.drop_front(n);
        n
    }

    /// Forgets all input, output and phases.
    pub fn reset(&mut self)
        requires
            total_arithmetic::<S>(),
            old(self).wf(),
        ensures
            final(self).wf(),
            final(self).is_fresh(old(self).channels),
            final(self).window == old(self).window,
            final(self).ramp == old(self).ramp,
            final(self).phases.onsets == old(self).phases.onsets,
    {
        self.in_buf.clear();
        self.out_queue.clear();
        self.synth_tail = Planes::zeros(self.channels, OVERLAP);
        self.phases.prev_phase = Planes::zeros(self.channels, NUM_BINS);
        self.phases.out_phase = Planes::zeros(self.channels, NUM_BINS);
        self.analysis_pos = 0;
        self.phases.prev_phase_valid = false;
    }

    /// Begins a synthesis step: the stretch moves, and the result is the next
    /// frame of each channel, ready to be transformed. There is none where
    /// there is too little input.
    pub fn analyse(&mut self) -> (r: Option<Planes<S>>)
        requires
            total_arithmetic::<S>(),
            old(self).wf(),
        ensures
            final(self).wf(),
            final(self).channels == old(self).channels,
            final(self).phases == old(self).phases,
            final(self)@ == old(self)@.ramped(),
            r is Some <==> old(self)@.can_step(),
            r is Some ==> r->0@ == old(self)@.analysed(),
    {
        self.ramp.advance();
        let all: usize = self.in_buf.frames();
        if all < self.analysis_pos + FRAME_SIZE {
            return None;
        }
        let mut frames: Vec<Vec<S>> = Vec::new();
        while frames.len() < self.channels
            invariant
                total_arithmetic::<S>(),
                self.wf(),
                self@ == old(self)@.ramped(),
                all == self@.input[0].len(),
                self.analysis_pos + FRAME_SIZE <= all,
                frames@.len() <= self.channels,
                forall|c: int|
                    0 <= c < frames@.len() ==> (#[trigger] frames@[c])@ == self@.analysed()[c],
            decreases self.channels - frames@.len(),
        {
            let c: usize = frames.len();
            assert(self@.input[c as int].len() == self@.input[0].len());
            let mut frame: Vec<S> = Vec::new();
            while frame.len() < FRAME_SIZE
                invariant
                    total_arithmetic::<S>(),
                    self.wf(),
                    c < self@.input.len(),
                    all == self@.input[c as int].len(),
                    self.analysis_pos + FRAME_SIZE <= all,
                    frame@.len() <= FRAME_SIZE,
                    frame@ =~= self@.analysed()[c as int].take(frame@.len() as int),
                decreases FRAME_SIZE - frame@.len(),
            {
                let i: usize = frame.len();
                let x: S = self.in_buf.get(c, self.analysis_pos + i);
                frame.push(x * self.window[i]);
            }
            assert(frame@ =~= self@.analysed()[c as int]);
            frames.push(frame);
        }
        let r: Planes<S> = Planes { chans: frames };
        assert(r@ =~= old(self)@.analysed());
        Some(r)
    }

    /// Decides on the phases of the output, given the magnitudes and phases
    /// of the frame that was analysed.
    pub fn advance_phases(&mut self, mags: &Planes<S>, phases: Planes<S>, pi: S)
        requires
            total_arithmetic::<S>(),
            old(self).wf(),
            phases@.len() == old(self).channels,
            shaped(mags@, phases@.len(), NUM_BINS as nat),
            shaped(phases@, phases@.len(), NUM_BINS as nat),
        ensures
            final(self).wf(),
            final(self).channels == old(self).channels,
            final(self)@ == old(self)@,
            final(self).phases.out_phase@ == old(self).phases.next_out(
                mags@,
                phases@,
                old(self)@.ramp.analysis_hop as int,
                pi,
            ),
            final(self).phases.prev_phase@ == phases@,
            final(self).phases.prev_phase_valid == old(self).phases.prev_phase_valid,
            old(self).phases.onsets.hears(
                !old(self).phases.prev_phase_valid,
                mags@,
                final(self).phases.onsets,
            ),
    {
        self.phases.advance(mags, phases, self.ramp.analysis_hop, pi);
    }

    /// Ends a synthesis step with the frames that came back from the inverse
    /// transform.
    pub fn synthesize(&mut self, frames: &Planes<S>)
        requires
            total_arithmetic::<S>(),
            old(self).wf(),
            old(self)@.can_step(),
            shaped(frames@, old(self).channels as nat, FRAME_SIZE as nat),
        ensures
            final(self).wf(),
            final(self).channels == old(self).channels,
            final(self)@ == old(self)@.stepped(frames@),
            final(self)@.output[0].len() == old(self)@.output[0].len() + SYNTHESIS_HOP,
            final(self).phases == (Phases { prev_phase_valid: true, ..old(self).phases }),
    {
        let ghost m = self@;
        proof {
            step_keeps_order(m, frames@);
        }
        let mut windowed: Vec<Vec<S>> = Vec::new();
        let scale: S = whole::<S>(1) / whole(2048);
        while windowed.len() < self.channels
            invariant
                total_arithmetic::<S>(),
                self.wf(),
                self@ == m,
                scale == num::<S>(1).div_spec(num(2048)),
                shaped(frames@, self.channels as nat, FRAME_SIZE as nat),
                windowed@.len() <= self.channels,
                forall|c: int|
                    0 <= c < windowed@.len() ==> (#[trigger] windowed@[c])@ == m.shaped_frames(
                        frames@,
                    )[c],
            decreases self.channels - windowed@.len(),
        {
            let c: usize = windowed.len();
            assert(frames@[c as int].len() == FRAME_SIZE);
            let mut frame: Vec<S> = Vec::new();
            while frame.len() < FRAME_SIZE
                invariant
                    total_arithmetic::<S>(),
                    self.wf(),
                    self@ == m,
                    scale == num::<S>(1).div_spec(num(2048)),
                    c < frames@.len(),
                    frames@[c as int].len() == FRAME_SIZE,
                    frame@.len() <= FRAME_SIZE,
                    frame@ =~= m.shaped_frames(frames@)[c as int].take(frame@.len() as int),
                decreases FRAME_SIZE - frame@.len(),
            {
                let i: usize = frame.len();
                frame.push(frames.get(c, i) * scale * self.window[i]);
            }
            assert(frame@ =~= m.shaped_frames(frames@)[c as int]);
            windowed.push(frame);
        }
        let windowed: Planes<S> = Planes { chans: windowed };
        assert(windowed@ =~= m.shaped_frames(frames@));
        overlap_add(&mut self.synth_tail, &mut self.out_queue, &windowed);
        self.phases.prev_phase_valid = true;
        self.analysis_pos = self.analysis_pos + self.ramp.analysis_hop;
        if self.analysis_pos > TRIM_AT {
            let gone: usize = self.analysis_pos - TRIM_KEEP_BEFORE;
            self.in_buf.drop_front(gone);
            self.analysis_pos = self.analysis_pos - gone;
        } else {
            proof {
                assert forall|c: int| 0 <= c < m.input.len() implies without_front(m.input, 0)[c]
                    == m.input[c] by {
                    assert(m.input[c].skip(0) =~= m.input[c]);
                }
                assert(without_front(m.input, 0) =~= m.input);
            }
        }
        assert(self@ == m.stepped(frames@));
    }
}

/// `n` zeros.
fn zeros<S: Sample>(n: usize) -> (r: Vec<S>)
    requires
        total_arithmetic::<S>(),
    ensures
        r@.len() == n,
        forall|i: int| 0 <= i < n ==> #[trigger] r@[i] == num::<S>(0),
{
    let mut r: Vec<S> = Vec::new();
    while r.len() < n
        invariant
            total_arithmetic::<S>(),
            r@.len() <= n,
            forall|i: int| 0 <= i < r@.len() ==> #[trigger] r@[i] == num::<S>(0),
        decreases n - r@.len(),
    {
        r.push(whole(0));
    }
    r
}

} // verus!
