//! Time stretching in the time domain: frames are cut out of the input at one
//! pace and added up at another, each one placed where it fits best.

use vstd::prelude::*;
use vstd::std_specs::ops::{AddSpec, DivSpec, MulSpec, SubSpec};

use crate::dsp::planes::{fed, in_step, interleaved, joined, least, shaped, without_front, Planes};
use crate::dsp::stretch::{
    all_carried, all_emitted, emitted, expected_frames, expected_output, overlap_add, overlap_gain,
    scaled_window, stretch_at, window_gain, StretchRamp, ADAPTER_MAX_OUTPUT_FRAMES_PER_CHUNK,
    ENGINE_CHUNK_FRAMES, FRAME_SIZE, MAX_HOP, OVERLAP, SYNTHESIS_HOP, TRIM_AT,
};
use crate::dsp::TimePitchProcessor;
use crate::sample::{
    clamp_to, finite, is_finite, le, lt, nearest_bounds, num, order_laws, total_arithmetic, whole,
    Sample,
};

pub mod laws;

verus! {

/// How far from its nominal place a frame may be cut out.
pub const SEARCH_RADIUS: usize = 256;

/// What trimming leaves in front of the analysis.
pub const TRIM_KEEP_BEFORE: usize = 2304;

/// The channels added up at frame `i`, of the first `n` channels.
pub open spec fn mono<S: Sample>(planes: Seq<Seq<S>>, i: int, n: nat) -> S
    decreases n,
{
    if n == 0 {
        num(0)
    } else {
        mono(planes, i, (n - 1) as nat).add_spec(planes[n - 1][i])
    }
}

/// The distance of a number from zero.
pub open spec fn magnitude<S: Sample>(x: S) -> S {
    if lt(x, num(0)) {
        num::<S>(0).sub_spec(x)
    } else {
        x
    }
}

/// How much the first `n` frames from `start` on differ from what would
/// have come next.
pub open spec fn difference<S: Sample>(
    reference: Seq<Seq<S>>,
    input: Seq<Seq<S>>,
    start: int,
    n: nat,
) -> S
    decreases n,
{
    if n == 0 {
        num(0)
    } else {
        let i = n - 1;
        difference(reference, input, start, i as nat).add_spec(
            magnitude(
                mono(reference, i, reference.len()).sub_spec(mono(input, start + i, input.len())),
            ),
        )
    }
}

/// The first of the places from `first` on, `n` of them, with the least
/// difference, and that difference. Differences that are no numbers, or have
/// no end, do not count.
pub open spec fn best_place<S: Sample>(
    reference: Seq<Seq<S>>,
    input: Seq<Seq<S>>,
    first: int,
    n: nat,
) -> Option<(int, S)>
    decreases n,
{
    if n == 0 {
        None
    } else {
        let place = first + n - 1;
        let d = difference(reference, input, place, OVERLAP as nat);
        match best_place(reference, input, first, (n - 1) as nat) {
            Some((best, least)) => if lt(d, least) {
                Some((place, d))
            } else {
                Some((best, least))
            },
            None => if finite(d) {
                Some((place, d))
            } else {
                None
            },
        }
    }
}

/// The state of the processor in mathematical terms.
pub struct WsolaModel<S> {
    /// The input that is still needed, by channel.
    pub input: Seq<Seq<S>>,
    /// The nominal place of the next frame in it.
    pub pos: int,
    /// What later frames still add to.
    pub tail: Seq<Seq<S>>,
    /// What would come next after the last frame, had it gone on.
    pub reference: Option<Seq<Seq<S>>>,
    /// Finished output, by channel.
    pub output: Seq<Seq<S>>,
    pub window: Seq<S>,
    pub ramp: StretchRamp<S>,
}

impl<S: Sample> WsolaModel<S> {
    /// Every channel is as long as the others, and no frame that a search
    /// can ask for is gone.
    pub open spec fn wf(self) -> bool {
        &&& in_step(self.input)
        &&& in_step(self.output)
        &&& self.output.len() == self.input.len()
        &&& shaped(self.tail, self.input.len(), OVERLAP as nat)
        &&& self.reference matches Some(r) ==> shaped(r, self.input.len(), OVERLAP as nat)
        &&& self.window.len() == FRAME_SIZE
        &&& 0 <= self.pos <= TRIM_AT
        &&& self.ramp.wf()
    }

    /// Enough input for a frame, wherever the search places it.
    pub open spec fn can_step(self) -> bool {
        self.pos + SEARCH_RADIUS + FRAME_SIZE <= self.input[0].len()
    }

    /// Where the next frame is cut out: where it goes on best from the last
    /// one, or at its nominal place if there is none.
    pub open spec fn place(self) -> int {
        let first = if self.pos < SEARCH_RADIUS {
            0
        } else {
            self.pos - SEARCH_RADIUS
        };
        match self.reference {
            None => self.pos,
            Some(r) => match best_place(
                r,
                self.input,
                first,
                (self.pos + SEARCH_RADIUS - first + 1) as nat,
            ) {
                Some((place, _)) => place,
                None => self.pos,
            },
        }
    }

    /// The next frame of each channel, under the window.
    pub open spec fn frames(self) -> Seq<Seq<S>> {
        let place = self.place();
        Seq::new(
            self.input.len(),
            |c: int|
                Seq::new(
                    FRAME_SIZE as nat,
                    |i: int| self.input[c][place + i].mul_spec(self.window[i]),
                ),
        )
    }

    /// What would come after the next frame.
    pub open spec fn next_reference(self) -> Seq<Seq<S>> {
        let place = self.place();
        Seq::new(
            self.input.len(),
            |c: int| self.input[c].subrange(place + SYNTHESIS_HOP, place + FRAME_SIZE),
        )
    }

    /// The frames that go from the front of the input after a step.
    pub open spec fn trimmed(self) -> int {
        if self.pos + self.ramp.analysis_hop > TRIM_AT {
            self.pos + self.ramp.analysis_hop - TRIM_KEEP_BEFORE
        } else {
            0
        }
    }

    /// One synthesis step, given enough input: the next frame is added to the
    /// output, and the analysis moves on by its hop.
    pub open spec fn stepped(self) -> WsolaModel<S> {
        WsolaModel {
            input: without_front(self.input, self.trimmed()),
            pos: self.pos + self.ramp.analysis_hop - self.trimmed(),
            tail: all_carried(self.tail, self.frames()),
            reference: Some(self.next_reference()),
            output: all_emitted(self.output, self.tail, self.frames()),
            ..self
        }
    }

    /// The stretch one step nearer to its target.
    pub open spec fn ramped(self) -> WsolaModel<S> {
        WsolaModel { ramp: self.ramp.advanced(), ..self }
    }

    /// How many frames of output are missing up to `target`.
    pub open spec fn missing(self, target: int) -> nat {
        if self.output[0].len() >= target {
            0
        } else {
            (target - self.output[0].len()) as nat
        }
    }

    /// Steps until there are `target` frames of output, or not enough input.
    pub open spec fn synthesized(self, target: int) -> WsolaModel<S>
        decreases self.missing(target),
        when self.output.len() > 0
        via Self::synthesis_ends
    {
        if self.output[0].len() >= target {
            self
        } else if !self.ramped().can_step() {
            self.ramped()
        } else {
            self.ramped().stepped().synthesized(target)
        }
    }

    #[via_fn]
    proof fn synthesis_ends(self, target: int) {
        let next = self.ramped().stepped();
        assert(next.output[0] =~= self.output[0] + emitted(
            self.tail[0],
            self.ramped().frames()[0],
        ));
    }

    /// Input appended.
    pub open spec fn fed(self, input: Seq<S>, frames: nat) -> WsolaModel<S> {
        WsolaModel { input: fed(self.input, input, frames), ..self }
    }

    /// Output taken from the front.
    pub open spec fn drained(self, n: nat) -> WsolaModel<S> {
        WsolaModel { output: without_front(self.output, n as int), ..self }
    }
}

/// A streaming time stretcher. All channels share one placement per frame, so
/// that they stay together.
pub struct Wsola<S> {
    pub channels: usize,
    pub in_buf: Planes<S>,
    pub analysis_pos: usize,
    pub synth_tail: Planes<S>,
    pub nat_ref: Option<Planes<S>>,
    pub out_queue: Planes<S>,
    pub window: Vec<S>,
    pub ramp: StretchRamp<S>,
}

impl<S: Sample> View for Wsola<S> {
    type V = WsolaModel<S>;

    open spec fn view(&self) -> WsolaModel<S> {
        WsolaModel {
            input: self.in_buf@,
            pos: self.analysis_pos as int,
            tail: self.synth_tail@,
            reference: match self.nat_ref {
                Some(r) => Some(r@),
                None => None,
            },
            output: self.out_queue@,
            window: self.window@,
            ramp: self.ramp,
        }
    }
}

/// Steps keep the state in order.
pub proof fn step_keeps_order<S: Sample>(m: WsolaModel<S>)
    requires
        m.wf(),
        m.can_step(),
    ensures
        m.stepped().wf(),
        m.stepped().output[0].len() == m.output[0].len() + SYNTHESIS_HOP,
        m.stepped().input.len() == m.input.len(),
        m.place() - m.pos <= SEARCH_RADIUS,
        m.pos - m.place() <= SEARCH_RADIUS,
        0 <= m.place(),
        0 <= m.trimmed() <= m.input[0].len(),
{
    if let Some(r) = m.reference {
        let first = if m.pos < SEARCH_RADIUS {
            0
        } else {
            m.pos - SEARCH_RADIUS
        };
        best_in_range(r, m.input, first, (m.pos + SEARCH_RADIUS - first + 1) as nat);
    }
}

/// Dropping old input moves nothing: a later frame reads what it would have
/// read, at its nominal place and as far before it as the search goes.
pub proof fn trimming_loses_nothing<S: Sample>(m: WsolaModel<S>, c: int, i: int)
    requires
        m.wf(),
        m.can_step(),
        0 <= c < m.input.len(),
        -SEARCH_RADIUS <= i,
        0 <= m.pos + m.ramp.analysis_hop + i < m.input[0].len(),
    ensures
        ({
            let next = m.stepped();
            &&& 0 <= next.pos + i < next.input[c].len()
            &&& next.input[c][next.pos + i] == m.input[c][m.pos + m.ramp.analysis_hop + i]
        }),
{
    step_keeps_order(m);
    assert(m.input[c].len() == m.input[0].len());
}

/// Synthesis only adds to the output: what was there stays in front, and no
/// more is added than it takes to reach the target, but for the rest of the
/// last step.
pub proof fn output_only_grows<S: Sample>(m: WsolaModel<S>, target: int, c: int)
    requires
        m.wf(),
        0 <= c < m.output.len(),
    ensures
        ({
            let r = m.synthesized(target);
            &&& r.wf()
            &&& r.output.len() == m.output.len()
            &&& m.output[c].is_prefix_of(r.output[c])
            &&& r.output[c].len() == m.output[c].len() || r.output[c].len() < target
                + SYNTHESIS_HOP
        }),
    decreases m.missing(target),
{
    assert(m.output[c].len() == m.output[0].len());
    let ready = m.ramped();
    let x = num::<S>(512).div_spec(ready.ramp.stretch);
    nearest_bounds(x, 1, MAX_HOP as int);
    assert(ready.wf());
    if m.output[0].len() < target && ready.can_step() {
        let next = ready.stepped();
        step_keeps_order(ready);
        assert(next.output[c] =~= m.output[c] + emitted(ready.tail[c], ready.frames()[c]));
        output_only_grows(next, target, c);
        let r = next.synthesized(target);
        assert(m.synthesized(target) == r);
        assert(m.output[c] =~= r.output[c].take(m.output[c].len() as int));
    }
}

proof fn best_in_range<S: Sample>(
    reference: Seq<Seq<S>>,
    input: Seq<Seq<S>>,
    first: int,
    n: nat,
)
    ensures
        best_place(reference, input, first, n) matches Some((place, _)) ==> first <= place < first
            + n,
    decreases n,
{
    if n > 0 {
        best_in_range(reference, input, first, (n - 1) as nat);
    }
}

/// The channels added up at frame `i`.
fn mono_at<S: Sample>(planes: &Planes<S>, i: usize) -> (r: S)
    requires
        total_arithmetic::<S>(),
        in_step(planes@),
        i < planes@[0].len(),
    ensures
        r == mono(planes@, i as int, planes@.len()),
{
    let channels: usize = planes.chans.len();
    let mut s: S = whole(0);
    let mut c: usize = 0;
    while c < channels
        invariant
            total_arithmetic::<S>(),
            in_step(planes@),
            i < planes@[0].len(),
            c <= channels,
            channels == planes@.len(),
            s == mono(planes@, i as int, c as nat),
        decreases channels - c,
    {
        assert(planes@[c as int].len() == planes@[0].len());
        s = s + planes.get(c, i);
        c = c + 1;
    }
    s
}

/// `count` frames from `from` on, the channels added up.
pub fn mono_range<S: Sample>(planes: &Planes<S>, from: usize, count: usize) -> (r: Vec<S>)
    requires
        total_arithmetic::<S>(),
        in_step(planes@),
        from + count <= planes@[0].len(),
    ensures
        r@.len() == count,
        forall|i: int|
            0 <= i < count ==> #[trigger] r@[i] == mono(planes@, from + i, planes@.len()),
{
    let all: usize = planes.frames();
    let mut r: Vec<S> = Vec::new();
    while r.len() < count
        invariant
            total_arithmetic::<S>(),
            in_step(planes@),
            all == planes@[0].len(),
            from + count <= all,
            r@.len() <= count,
            forall|i: int|
                0 <= i < r@.len() ==> #[trigger] r@[i] == mono(planes@, from + i, planes@.len()),
        decreases count - r@.len(),
    {
        let k: usize = r.len();
        r.push(mono_at(planes, from + k));
    }
    r
}

/// How much the `OVERLAP` frames from `start` on differ from the reference.
fn difference_at<S: Sample>(
    reference: &Vec<S>,
    region: &Vec<S>,
    start: usize,
    Ghost(planes): Ghost<Seq<Seq<S>>>,
    Ghost(input): Ghost<Seq<Seq<S>>>,
    Ghost(first): Ghost<int>,
) -> (r: S)
    requires
        total_arithmetic::<S>(),
        reference@.len() == OVERLAP,
        start + OVERLAP <= region@.len(),
        forall|i: int|
            0 <= i < OVERLAP ==> #[trigger] reference@[i] == mono(planes, i, planes.len()),
        forall|i: int|
            0 <= i < region@.len() ==> #[trigger] region@[i] == mono(input, first + i, input.len()),
    ensures
        r == difference(planes, input, first + start, OVERLAP as nat),
{
    let zero: S = whole(0);
    let len: usize = region.len();
    let mut score: S = zero;
    let mut i: usize = 0;
    while i < OVERLAP
        invariant
            total_arithmetic::<S>(),
            zero == num::<S>(0),
            i <= OVERLAP,
            len == region@.len(),
            reference@.len() == OVERLAP,
            start + OVERLAP <= len,
            forall|k: int|
                0 <= k < OVERLAP ==> #[trigger] reference@[k] == mono(planes, k, planes.len()),
            forall|k: int|
                0 <= k < region@.len() ==> #[trigger] region@[k] == mono(
                    input,
                    first + k,
                    input.len(),
                ),
            score == difference(planes, input, first + start, i as nat),
        decreases OVERLAP - i,
    {
        let x: S = reference[i] - region[start + i];
        assert(region@[start + i] == mono(input, first + (start + i), input.len()));
        assert(first + (start + i) == first + start + i);
        let m: S = if x < zero {
            zero - x
        } else {
            x
        };
        score = score + m;
        i = i + 1;
    }
    score
}

impl<S: Sample> Wsola<S> {
    /// The state is in order, and made for `channels` channels.
    pub open spec fn wf(self) -> bool {
        &&& self@.wf()
        &&& self.channels == self@.input.len()
    }

    /// A stretcher at no stretch. `window` is the shape of a frame; it is
    /// scaled so that overlapping frames add up to what they were cut from.
    pub fn new(channels: usize, window: &Vec<S>) -> (r: Wsola<S>)
        requires
            total_arithmetic::<S>(),
            channels > 0,
            window@.len() == FRAME_SIZE,
        ensures
            r.wf(),
            r.channels == channels,
            shaped(r@.input, channels as nat, 0),
            shaped(r@.output, channels as nat, 0),
            forall|c: int, i: int|
                0 <= c < channels && 0 <= i < OVERLAP ==> #[trigger] r@.tail[c][i] == num::<S>(0),
            r@.pos == 0,
            r@.reference is None,
            r@.window == window@.map_values(|w: S| w.div_spec(overlap_gain(window@))),
            r@.ramp == (StretchRamp {
                target: num::<S>(1),
                stretch: num::<S>(1),
                analysis_hop: SYNTHESIS_HOP,
            }),
    {
        let gain: S = window_gain(window);
        Wsola {
            channels,
            in_buf: Planes::zeros(channels, 0),
            analysis_pos: 0,
            synth_tail: Planes::zeros(channels, OVERLAP),
            nat_ref: None,
            out_queue: Planes::zeros(channels, 0),
            window: scaled_window(window, gain),
            ramp: StretchRamp::new(),
        }
    }

    /// Asks for another stretch. The stretch in use moves there with the
    /// coming steps.
    pub fn set_stretch(&mut self, stretch: S)
        requires
            total_arithmetic::<S>(),
            old(self).wf(),
        ensures
            final(self).wf(),
            final(self)@ == (WsolaModel { ramp: old(self)@.ramp.aimed(stretch), ..old(self)@ }),
    {
        self.ramp.set_stretch(stretch);
    }

    /// The stretch that was asked for last.
    pub fn target_stretch(&self) -> (r: S)
        ensures
            r == self@.ramp.target,
    {
        self.ramp.target
    }

    /// The larger of the stretch in use and the one asked for.
    pub fn effective_stretch(&self) -> (r: S)
        requires
            total_arithmetic::<S>(),
        ensures
            r == self@.ramp.effective(),
    {
        self.ramp.effective_stretch()
    }

    /// Takes in `frames` interleaved frames.
    pub fn ingest(&mut self, input: &[S], frames: usize)
        requires
            old(self).wf(),
            frames * old(self).channels <= input@.len(),
        ensures
            final(self).wf(),
            final(self)@ == old(self)@.fed(input@, frames as nat),
            final(self).channels == old(self).channels,
    {
        self.in_buf.feed(input, frames);
    }

    /// How many frames of output are waiting.
    pub fn output_available(&self) -> (r: usize)
        requires
            self.wf(),
        ensures
            r == self@.output[0].len(),
    {
        self.out_queue.frames()
    }

    /// Takes up to `max_out` frames of output, interleaved. The result is how
    /// many.
    pub fn drain_output(&mut self, output: &mut [S], max_out: usize) -> (r: usize)
        requires
            old(self).wf(),
            max_out * old(self).channels <= old(output)@.len(),
        ensures
            final(self).wf(),
            final(self).channels == old(self).channels,
            r == least(old(self)@.output[0].len(), max_out as nat),
            r * old(self).channels <= old(output)@.len(),
            final(output)@.len() == old(output)@.len(),
            final(output)@.take(r * old(self).channels) == interleaved(
                old(self)@.output,
                r as nat,
            ),
            final(output)@.skip(r * old(self).channels) == old(output)@.skip(
                r * old(self).channels,
            ),
            final(self)@ == old(self)@.drained(r as nat),
    {
        let queued: usize = self.out_queue.frames();
        let n: usize = if queued <= max_out {
            queued
        } else {
            max_out
        };
        proof {
            vstd::arithmetic::mul::lemma_mul_inequality(
                n as int,
                max_out as int,
                self.channels as int,
            );
        }
        self.out_queue.write_interleaved(output, n);
        self.out_queue.drop_front(n);
        n
    }

    /// Takes up to `max_out` frames of output to the end of `dst`. The result
    /// is how many.
    pub fn drain_output_planar(&mut self, dst: &mut Planes<S>, max_out: usize) -> (r: usize)
        requires
            old(self).wf(),
            old(dst)@.len() == old(self).channels,
        ensures
            final(self).wf(),
            final(self).channels == old(self).channels,
            r == least(old(self)@.output[0].len(), max_out as nat),
            final(dst)@ == joined(old(dst)@, old(self)@.output, r as int),
            final(self)@ == old(self)@.drained(r as nat),
    {
        let queued: usize = self.out_queue.frames();
        let n: usize = if queued <= max_out {
            queued
        } else {
            max_out
        };
        dst.join(&self.out_queue, n);
        self.out_queue.drop_front(n);
        n
    }

    /// Steps until there are `target_frames` frames of output, or not enough
    /// input.
    pub fn synthesize_up_to(&mut self, target_frames: usize)
        requires
            total_arithmetic::<S>(),
            old(self).wf(),
        ensures
            final(self).wf(),
            final(self).channels == old(self).channels,
            final(self)@ == old(self)@.synthesized(target_frames as int),
    {
        while self.out_queue.frames() < target_frames
            invariant
                total_arithmetic::<S>(),
                self.wf(),
                self.channels == old(self).channels,
                self@.synthesized(target_frames as int) == old(self)@.synthesized(
                    target_frames as int,
                ),
            decreases self@.missing(target_frames as int),
        {
            if !self.step() {
                return ;
            }
        }
    }

    /// Forgets all input and output.
    pub fn reset(&mut self)
        requires
            total_arithmetic::<S>(),
            old(self).wf(),
        ensures
            final(self).wf(),
            final(self).channels == old(self).channels,
            shaped(final(self)@.input, old(self).channels as nat, 0),
            shaped(final(self)@.output, old(self).channels as nat, 0),
            forall|c: int, i: int|
                0 <= c < old(self).channels && 0 <= i < OVERLAP ==> #[trigger] final(
                    self)@.tail[c][i] == num::<S>(0),
            final(self)@.pos == 0,
            final(self)@.reference is None,
            final(self)@.window == old(self)@.window,
            final(self)@.ramp == old(self)@.ramp,
    {
        self.in_buf.clear();
        self.out_queue.clear();
        self.synth_tail = Planes::zeros(self.channels, OVERLAP);
        self.analysis_pos = 0;
        self.nat_ref = None;
    }

    /// Where the next frame is cut out.
    fn find_place(&self) -> (r: usize)
        requires
            total_arithmetic::<S>(),
            self.wf(),
            self@.can_step(),
        ensures
            r == self@.place(),
    {
        let reference: &Planes<S> = match &self.nat_ref {
            Some(r) => r,
            None => {
                return self.analysis_pos;
            },
        };
        let first: usize = if self.analysis_pos < SEARCH_RADIUS {
            0
        } else {
            self.analysis_pos - SEARCH_RADIUS
        };
        let places: usize = self.analysis_pos + SEARCH_RADIUS - first + 1;
        let target: Vec<S> = mono_range(reference, 0, OVERLAP);
        let region: Vec<S> = mono_range(&self.in_buf, first, places - 1 + OVERLAP);
        let mut best: Option<(usize, S)> = None;
        let mut k: usize = 0;
        while k < places
            invariant
                total_arithmetic::<S>(),
                k <= places,
                places <= 513,
                first <= TRIM_AT,
                target@.len() == OVERLAP,
                region@.len() == places - 1 + OVERLAP,
                forall|i: int|
                    0 <= i < OVERLAP ==> #[trigger] target@[i] == mono(
                        reference@,
                        i,
                        reference@.len(),
                    ),
                forall|i: int|
                    0 <= i < region@.len() ==> #[trigger] region@[i] == mono(
                        self.in_buf@,
                        first + i,
                        self.in_buf@.len(),
                    ),
                match best {
                    Some((place, d)) => best_place(
                        reference@,
                        self.in_buf@,
                        first as int,
                        k as nat,
                    ) == Some((place as int, d)),
                    None => best_place(reference@, self.in_buf@, first as int, k as nat) is None,
                },
            decreases places - k,
        {
            let d: S = difference_at(
                &target,
                &region,
                k,
                Ghost(reference@),
                Ghost(self.in_buf@),
                Ghost(first as int),
            );
            best = match best {
                Some((place, least)) => if d < least {
                    Some((first + k, d))
                } else {
                    Some((place, least))
                },
                None => if is_finite(d) {
                    Some((first + k, d))
                } else {
                    None
                },
            };
            k = k + 1;
        }
        match best {
            Some((place, _)) => place,
            None => self.analysis_pos,
        }
    }

    /// One synthesis step. Where there is too little input for one, only the
    /// stretch moves, and the result is `false`.
    pub fn step(&mut self) -> (r: bool)
        requires
            total_arithmetic::<S>(),
            old(self).wf(),
        ensures
            final(self).wf(),
            final(self).channels == old(self).channels,
            r == old(self)@.ramped().can_step(),
            final(self)@ == if r {
                old(self)@.ramped().stepped()
            } else {
                old(self)@.ramped()
            },
            r ==> final(self)@.output[0].len() == old(self)@.output[0].len() + SYNTHESIS_HOP,
    {
        self.ramp.advance();
        let ghost m = self@;
        assert(m == old(self)@.ramped());
        let needed_end: usize = self.analysis_pos + SEARCH_RADIUS + FRAME_SIZE;
        if self.in_buf.frames() < needed_end {
            return false;
        }
        proof {
            step_keeps_order(m);
        }
        let place: usize = self.find_place();
        let (frames, reference): (Planes<S>, Planes<S>) = self.cut(place);
        assert(frames@ =~~= m.frames());
        assert(reference@ =~= m.next_reference());
        self.nat_ref = Some(reference);
        overlap_add(&mut self.synth_tail, &mut self.out_queue, &frames);
        self.analysis_pos = self.analysis_pos + self.ramp.analysis_hop;
        if self.analysis_pos > TRIM_AT {
            let gone: usize = self.analysis_pos - TRIM_KEEP_BEFORE;
            self.in_buf.drop_front(gone);
            self.analysis_pos = self.analysis_pos - gone;
        } else {
            proof {
                assert(without_front(m.input, 0) =~= m.input) by {
                    assert forall|c: int| 0 <= c < m.input.len() implies without_front(
                        m.input,
                        0,
                    )[c] == m.input[c] by {
                        assert(m.input[c].skip(0) =~= m.input[c]);
                    }
                }
            }
        }
        assert(self@ == m.stepped());
        true
    }

    /// The frames at `place` under the window, and what would come after
    /// them.
    fn cut(&self, place: usize) -> (r: (Planes<S>, Planes<S>))
        requires
            total_arithmetic::<S>(),
            self.wf(),
            place + FRAME_SIZE <= self@.input[0].len(),
        ensures
            shaped(r.0@, self@.input.len(), FRAME_SIZE as nat),
            shaped(r.1@, self@.input.len(), OVERLAP as nat),
            forall|c: int, i: int|
                0 <= c < self@.input.len() && 0 <= i < FRAME_SIZE ==> #[trigger] r.0@[c][i]
                    == self@.input[c][place + i].mul_spec(self@.window[i]),
            forall|c: int|
                0 <= c < self@.input.len() ==> #[trigger] r.1@[c] == self@.input[c].subrange(
                    place + SYNTHESIS_HOP,
                    place + FRAME_SIZE,
                ),
    {
        let all: usize = self.in_buf.frames();
        let mut frames: Vec<Vec<S>> = Vec::new();
        let mut nexts: Vec<Vec<S>> = Vec::new();
        while frames.len() < self.channels
            invariant
                total_arithmetic::<S>(),
                self.wf(),
                all == self@.input[0].len(),
                place + FRAME_SIZE <= all,
                frames@.len() == nexts@.len(),
                frames@.len() <= self.channels,
                forall|c: int|
                    0 <= c < frames@.len() ==> (#[trigger] frames@[c])@.len() == FRAME_SIZE,
                forall|c: int, i: int|
                    0 <= c < frames@.len() && 0 <= i < FRAME_SIZE ==> #[trigger] frames@[c]@[i]
                        == self@.input[c][place + i].mul_spec(self@.window[i]),
                forall|c: int|
                    0 <= c < nexts@.len() ==> (#[trigger] nexts@[c])@ == self@.input[c].subrange(
                        place + SYNTHESIS_HOP,
                        place + FRAME_SIZE,
                    ),
            decreases self.channels - frames@.len(),
        {
            let c: usize = frames.len();
            assert(self@.input[c as int].len() == self@.input[0].len());
            let mut frame: Vec<S> = Vec::new();
            let mut next: Vec<S> = Vec::new();
            while frame.len() < FRAME_SIZE
                invariant
                    total_arithmetic::<S>(),
                    self.wf(),
                    c < self@.input.len(),
                    all == self@.input[c as int].len(),
                    place + FRAME_SIZE <= all,
                    frame@.len() <= FRAME_SIZE,
                    forall|i: int|
                        0 <= i < frame@.len() ==> #[trigger] frame@[i]
                            == self@.input[c as int][place + i].mul_spec(self@.window[i]),
                    next@ == if frame@.len() <= SYNTHESIS_HOP {
                        Seq::<S>::empty()
                    } else {
                        self@.input[c as int].subrange(
                            place + SYNTHESIS_HOP,
                            place + frame@.len() as int,
                        )
                    },
                decreases FRAME_SIZE - frame@.len(),
            {
                let i: usize = frame.len();
                let x: S = self.in_buf.get(c, place + i);
                frame.push(x * self.window[i]);
                if i >= SYNTHESIS_HOP {
                    next.push(x);
                    assert(next@ =~= self@.input[c as int].subrange(
                        place + SYNTHESIS_HOP,
                        place + frame@.len() as int,
                    ));
                }
            }
            frames.push(frame);
            nexts.push(next);
        }
        (Planes { chans: frames }, Planes { chans: nexts })
    }
}

impl<S: Sample> WsolaModel<S> {
    /// What a chunk makes of the state, and what it gives out, with room for
    /// `max_out` frames: the input is taken in, and as much is synthesized as
    /// the chunk is expected to give.
    pub open spec fn ran(self, input: Seq<S>, max_out: nat) -> (WsolaModel<S>, Seq<S>) {
        let target = least(expected_frames(self.ramp.effective()) as nat, max_out);
        let done = self.fed(input, ENGINE_CHUNK_FRAMES as nat).synthesized(target as int);
        let n = least(done.output[0].len(), max_out);
        (done.drained(n), interleaved(done.output, n))
    }
}

/// How many frames a chunk may give out, none where it cannot be run: it is
/// for another number of channels, too short, or there is no room.
pub open spec fn chunk_room(own: usize, input: nat, room: nat, channels: usize) -> nat {
    if channels != own || channels == 0 || input < ENGINE_CHUNK_FRAMES * channels {
        0
    } else {
        least(ADAPTER_MAX_OUTPUT_FRAMES_PER_CHUNK as nat, room / channels as nat)
    }
}

/// How many frames a chunk may give out.
pub fn frames_allowed(own: usize, input: usize, room: usize, channels: usize) -> (r: usize)
    ensures
        r == chunk_room(own, input as nat, room as nat, channels),
        r > 0 ==> ENGINE_CHUNK_FRAMES * channels <= input && r * channels <= room,
{
    if channels != own || channels == 0 {
        return 0;
    }
    let needed: usize = match ENGINE_CHUNK_FRAMES.checked_mul(channels) {
        Some(n) => n,
        None => {
            return 0;
        },
    };
    if input < needed {
        return 0;
    }
    let fit: usize = room / channels;
    proof {
        vstd::arithmetic::div_mod::lemma_fundamental_div_mod(room as int, channels as int);
        vstd::arithmetic::mul::lemma_mul_is_commutative(fit as int, channels as int);
        if fit > ADAPTER_MAX_OUTPUT_FRAMES_PER_CHUNK {
            vstd::arithmetic::mul::lemma_mul_inequality(5120, fit as int, channels as int);
        }
    }
    if fit < ADAPTER_MAX_OUTPUT_FRAMES_PER_CHUNK {
        fit
    } else {
        ADAPTER_MAX_OUTPUT_FRAMES_PER_CHUNK
    }
}

/// Changes the speed and keeps the pitch.
pub struct WsolaSpeed<S> {
    pub inner: Wsola<S>,
}

impl<S: Sample> WsolaSpeed<S> {
    /// A processor at the original speed.
    pub fn new(channels: usize, window: &Vec<S>) -> (r: WsolaSpeed<S>)
        requires
            total_arithmetic::<S>(),
            channels > 0,
            window@.len() == FRAME_SIZE,
        ensures
            r.inner.wf(),
            r.inner.channels == channels,
            shaped(r.inner@.input, channels as nat, 0),
            shaped(r.inner@.output, channels as nat, 0),
            forall|c: int, i: int|
                0 <= c < channels && 0 <= i < OVERLAP ==> #[trigger] r.inner@.tail[c][i] == num::<
                    S,
                >(0),
            r.inner@.pos == 0,
            r.inner@.reference is None,
            r.inner@.window == window@.map_values(|w: S| w.div_spec(overlap_gain(window@))),
            r.inner@.ramp == (StretchRamp {
                target: num::<S>(1),
                stretch: num::<S>(1),
                analysis_hop: SYNTHESIS_HOP,
            }),
    {
        WsolaSpeed { inner: Wsola::new(channels, window) }
    }
}

impl<S: Sample> TimePitchProcessor<S> for WsolaSpeed<S> {
    open spec fn valid(&self) -> bool {
        self.inner.wf() && total_arithmetic::<S>()
    }

    open spec fn input_frames(&self) -> nat {
        ENGINE_CHUNK_FRAMES as nat
    }

    open spec fn max_output_frames(&self) -> nat {
        ADAPTER_MAX_OUTPUT_FRAMES_PER_CHUNK as nat
    }

    open spec fn expected_output_frames(&self) -> nat {
        expected_frames(self.inner@.ramp.effective()) as nat
    }

    /// The stretch is the inverse of the speed, which is held between one
    /// quarter and four.
    open spec fn sped(&self, speed: S, after: &Self) -> bool {
        &&& after.inner.channels == self.inner.channels
        &&& after.inner@ == (WsolaModel {
            ramp: self.inner@.ramp.aimed(stretch_at(speed)),
            ..self.inner@
        })
    }

    open spec fn pitched(&self, semitones: S, after: &Self) -> bool {
        *after == *self
    }

    open spec fn processed(
        &self,
        input: Seq<S>,
        room: nat,
        channels: usize,
        after: &Self,
        output: Seq<S>,
    ) -> bool {
        let max_out = chunk_room(self.inner.channels, input.len(), room, channels);
        &&& after.inner.channels == self.inner.channels
        &&& (after.inner@, output) == if max_out == 0 {
            (self.inner@, Seq::<S>::empty())
        } else {
            self.inner@.ran(input, max_out)
        }
    }

    fn set_speed(&mut self, speed: S) {
        let s: S = clamp_to(speed, whole::<S>(1) / whole(4), whole(4));
        self.inner.set_stretch(whole::<S>(1) / s);
    }

    fn set_pitch_semitones(&mut self, semitones: S) {
    }

    fn input_frames_per_chunk(&self) -> (r: usize) {
        ENGINE_CHUNK_FRAMES
    }

    fn max_output_frames_per_chunk(&self) -> (r: usize) {
        ADAPTER_MAX_OUTPUT_FRAMES_PER_CHUNK
    }

    fn expected_output_frames_per_chunk(&self) -> (r: usize) {
        expected_output(self.inner.effective_stretch())
    }

    fn process(&mut self, input: &[S], output: &mut [S], channels: usize) -> (r: (usize, usize))
        ensures
            r.0 == if chunk_room(
                old(self).inner.channels,
                input@.len(),
                old(output)@.len(),
                channels,
            ) == 0 {
                0
            } else {
                ENGINE_CHUNK_FRAMES
            },
    {
        let max_out: usize = frames_allowed(
            self.inner.channels,
            input.len(),
            output.len(),
            channels,
        );
        if max_out == 0 {
            proof {
                vstd::arithmetic::mul::lemma_mul_basics(channels as int);
                assert(output@.take(0) =~= Seq::<S>::empty());
            }
            return (0, 0);
        }
        let expected: usize = self.expected_output_frames_per_chunk();
        let target: usize = if expected < max_out {
            expected
        } else {
            max_out
        };
        self.inner.ingest(input, ENGINE_CHUNK_FRAMES);
        self.inner.synthesize_up_to(target);
        let written: usize = self.inner.drain_output(output, max_out);
        (ENGINE_CHUNK_FRAMES, written)
    }
}

/// No place in the search range goes on better from the last frame than the
/// one that is chosen, and none before it as well. Differences that are no
/// numbers, or have no end, do not count.
pub proof fn the_best_place_is_chosen<S: Sample>(m: WsolaModel<S>, place: int)
    requires
        order_laws::<S>(),
        m.wf(),
        m.reference is Some,
        0 <= place,
        -SEARCH_RADIUS <= place - m.pos <= SEARCH_RADIUS,
        finite(difference(m.reference->0, m.input, place, OVERLAP as nat)),
    ensures
        ({
            let d = difference(m.reference->0, m.input, place, OVERLAP as nat);
            let best = difference(m.reference->0, m.input, m.place(), OVERLAP as nat);
            &&& !lt(d, best)
            &&& place < m.place() ==> !le(d, best)
        }),
{
    let first = if m.pos < SEARCH_RADIUS {
        0
    } else {
        m.pos - SEARCH_RADIUS
    };
    let n = (m.pos + SEARCH_RADIUS - first + 1) as nat;
    best_is_least(m.reference->0, m.input, first, n, place);
}

proof fn best_is_least<S: Sample>(
    reference: Seq<Seq<S>>,
    input: Seq<Seq<S>>,
    first: int,
    n: nat,
    place: int,
)
    requires
        order_laws::<S>(),
        first <= place < first + n,
        finite(difference(reference, input, place, OVERLAP as nat)),
    ensures
        ({
            let d = difference(reference, input, place, OVERLAP as nat);
            match best_place(reference, input, first, n) {
                Some((best, least)) => {
                    &&& least == difference(reference, input, best, OVERLAP as nat)
                    &&& !lt(d, least)
                    &&& place < best ==> !le(d, least)
                },
                None => false,
            }
        }),
    decreases n,
{
    let last = first + n - 1;
    best_is_itself(reference, input, first, (n - 1) as nat);
    if place < last {
        best_is_least(reference, input, first, (n - 1) as nat, place);
    }
}

proof fn best_is_itself<S: Sample>(
    reference: Seq<Seq<S>>,
    input: Seq<Seq<S>>,
    first: int,
    n: nat,
)
    ensures
        best_place(reference, input, first, n) matches Some((best, least)) ==> first <= best < first
            + n && least == difference(reference, input, best, OVERLAP as nat),
    decreases n,
{
    if n > 0 {
        best_is_itself(reference, input, first, (n - 1) as nat);
    }
}

} // verus!
