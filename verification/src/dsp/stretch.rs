//! What the time-stretching processors share: how the stretch moves to where
//! it was set, and how overlapping frames add up to a stream.

use vstd::prelude::*;
use vstd::std_specs::ops::{AddSpec, DivSpec, MulSpec, SubSpec};

use crate::dsp::planes::{shaped, Planes};
use crate::sample::{
    ceiling, ceiling_within, clamp_to, clamped, half, larger, larger_of, le, lt, nearest,
    nearest_within, num, same, total_arithmetic, whole, Sample,
};

pub mod laws;

verus! {

/// The frames that one analysis looks at.
pub const FRAME_SIZE: usize = 2048;

/// The frames that one synthesis step gives out.
pub const SYNTHESIS_HOP: usize = 512;

/// What two neighbouring synthesis frames have in common.
pub const OVERLAP: usize = 1536;

/// The source frames that one chunk takes in.
pub const ENGINE_CHUNK_FRAMES: usize = 1024;

/// The most frames that one chunk gives out.
pub const ADAPTER_MAX_OUTPUT_FRAMES_PER_CHUNK: usize = 5120;

/// Input is dropped from the front once the analysis has come this far.
pub const TRIM_AT: usize = 16384;

/// No analysis moves on by more than this.
pub const MAX_HOP: usize = 4096;

/// The stretch in use, on its way to the stretch that was asked for. A stretch
/// of two makes the output twice as long as the input.
#[derive(Clone, Copy, Debug)]
pub struct StretchRamp<S> {
    pub target: S,
    pub stretch: S,
    /// The source frames from one analysis to the next.
    pub analysis_hop: usize,
}

/// The smallest stretch, one quarter.
pub open spec fn min_stretch<S: Sample>() -> S {
    num::<S>(1).div_spec(num(4))
}

/// The stretch that a speed asks for, which is held between one quarter and
/// four.
pub open spec fn stretch_at<S: Sample>(speed: S) -> S {
    num::<S>(1).div_spec(clamped(speed, num::<S>(1).div_spec(num(4)), num(4)))
}

/// The most that the stretch changes in one step, one tenth.
pub open spec fn stretch_step<S: Sample>() -> S {
    num::<S>(1).div_spec(num(10))
}

/// The source frames that answer to one synthesis hop at a stretch: the
/// nearest whole number, at least one.
pub open spec fn hop_for<S: Sample>(stretch: S) -> int {
    let x = num::<S>(512).div_spec(stretch);
    if same(x, x) {
        nearest(x, 1, MAX_HOP as int)
    } else {
        1
    }
}

impl<S: Sample> StretchRamp<S> {
    /// The analysis moves on by at least one frame, but not too far.
    pub open spec fn wf(self) -> bool {
        1 <= self.analysis_hop <= MAX_HOP
    }

    /// No stretch.
    pub fn new() -> (r: StretchRamp<S>)
        requires
            total_arithmetic::<S>(),
        ensures
            r == (StretchRamp {
                target: num::<S>(1),
                stretch: num::<S>(1),
                analysis_hop: SYNTHESIS_HOP,
            }),
            r.wf(),
    {
        StretchRamp { target: whole(1), stretch: whole(1), analysis_hop: SYNTHESIS_HOP }
    }

    /// Asks for another stretch.
    pub open spec fn aimed(self, stretch: S) -> StretchRamp<S> {
        StretchRamp { target: clamped(stretch, min_stretch(), num(8)), ..self }
    }

    /// Asks for another stretch, which is brought within its bounds.
    pub fn set_stretch(&mut self, stretch: S)
        requires
            total_arithmetic::<S>(),
        ensures
            *final(self) == old(self).aimed(stretch),
    {
        self.target = clamp_to(stretch, whole::<S>(1) / whole(4), whole(8));
    }

    /// The larger of the stretch in use and the one asked for.
    pub open spec fn effective(self) -> S {
        larger(self.stretch, self.target)
    }

    /// The larger of the stretch in use and the one asked for.
    pub fn effective_stretch(&self) -> (r: S)
        requires
            total_arithmetic::<S>(),
        ensures
            r == self.effective(),
    {
        larger_of(self.stretch, self.target)
    }

    /// The ramp one synthesis step later: the stretch is one step nearer to
    /// its target, or there once it is within half a step.
    pub open spec fn advanced(self) -> StretchRamp<S> {
        let step = stretch_step::<S>();
        let diff = self.target.sub_spec(self.stretch);
        let close = step.mul_spec(half());
        let stretch = if le(diff, close) && le(num::<S>(0).sub_spec(diff), close) {
            self.target
        } else if lt(num(0), diff) {
            self.stretch.add_spec(step)
        } else if lt(diff, num(0)) {
            self.stretch.sub_spec(step)
        } else {
            self.stretch.add_spec(diff)
        };
        StretchRamp { stretch, analysis_hop: hop_for(stretch) as usize, ..self }
    }

    /// Moves the stretch one step towards its target.
    pub fn advance(&mut self)
        requires
            total_arithmetic::<S>(),
        ensures
            *final(self) == old(self).advanced(),
            final(self).wf(),
    {
        let zero: S = whole(0);
        let step: S = whole::<S>(1) / whole(10);
        let close: S = step * (whole::<S>(1) / whole(2));
        let diff: S = self.target - self.stretch;
        if diff <= close && zero - diff <= close {
            self.stretch = self.target;
        } else if zero < diff {
            self.stretch = self.stretch + step;
        } else if diff < zero {
            self.stretch = self.stretch - step;
        } else {
            self.stretch = self.stretch + diff;
        }
        let x: S = whole::<S>(512) / self.stretch;
        self.analysis_hop = if x == x {
            nearest_within(x, 1, 4096) as usize
        } else {
            1
        };
    }
}

/// The frames that a chunk is expected to give at `ratio` frames of output
/// per frame of input: rounded up, between one and the most there can be.
pub open spec fn expected_frames<S: Sample>(ratio: S) -> int {
    ceiling(num::<S>(1024).mul_spec(ratio), 1, ADAPTER_MAX_OUTPUT_FRAMES_PER_CHUNK as int)
}

/// The frames that a chunk is expected to give at `ratio` frames of output
/// per frame of input.
pub fn expected_output<S: Sample>(ratio: S) -> (r: usize)
    requires
        total_arithmetic::<S>(),
    ensures
        r == expected_frames(ratio),
        1 <= r <= ADAPTER_MAX_OUTPUT_FRAMES_PER_CHUNK,
{
    ceiling_within(whole::<S>(1024) * ratio, 1, 5120) as usize
}

/// The part of overlapping frames that is complete: the front of what is
/// left of earlier frames, with the new frame on top.
pub open spec fn emitted<S: Sample>(tail: Seq<S>, frame: Seq<S>) -> Seq<S> {
    Seq::new(SYNTHESIS_HOP as nat, |i: int| tail[i].add_spec(frame[i]))
}

/// What later frames will still add to.
pub open spec fn carried<S: Sample>(tail: Seq<S>, frame: Seq<S>) -> Seq<S> {
    Seq::new(
        OVERLAP as nat,
        |i: int|
            (if i + SYNTHESIS_HOP < OVERLAP {
                tail[i + SYNTHESIS_HOP]
            } else {
                num::<S>(0)
            }).add_spec(frame[i + SYNTHESIS_HOP]),
    )
}

/// The queues with what a step completes on every channel.
pub open spec fn all_emitted<S: Sample>(
    queue: Seq<Seq<S>>,
    tail: Seq<Seq<S>>,
    frames: Seq<Seq<S>>,
) -> Seq<Seq<S>> {
    Seq::new(queue.len(), |c: int| queue[c] + emitted(tail[c], frames[c]))
}

/// What is left on every channel.
pub open spec fn all_carried<S: Sample>(tail: Seq<Seq<S>>, frames: Seq<Seq<S>>) -> Seq<Seq<S>> {
    Seq::new(tail.len(), |c: int| carried(tail[c], frames[c]))
}

/// Adds one frame on each channel to what is left of earlier ones, and moves
/// what is complete to the queue.
pub fn overlap_add<S: Sample>(tail: &mut Planes<S>, queue: &mut Planes<S>, frames: &Planes<S>)
    requires
        total_arithmetic::<S>(),
        shaped(old(tail)@, frames@.len(), OVERLAP as nat),
        shaped(frames@, frames@.len(), FRAME_SIZE as nat),
        old(queue)@.len() == frames@.len(),
    ensures
        final(queue)@ == all_emitted(old(queue)@, old(tail)@, frames@),
        final(tail)@ == all_carried(old(tail)@, frames@),
        shaped(final(tail)@, frames@.len(), OVERLAP as nat),
{
    let channels: usize = frames.chans.len();
    let ghost tails = tail@;
    let ghost queues = queue@;
    let mut c: usize = 0;
    while c < channels
        invariant
            total_arithmetic::<S>(),
            c <= channels,
            channels == frames@.len(),
            shaped(tails, frames@.len(), OVERLAP as nat),
            shaped(frames@, frames@.len(), FRAME_SIZE as nat),
            tail.chans@.len() == channels,
            queue.chans@.len() == channels,
            queues.len() == channels,
            forall|d: int|
                0 <= d < c ==> (#[trigger] tail.chans@[d])@ == carried(tails[d], frames@[d]),
            forall|d: int| c <= d < channels ==> (#[trigger] tail.chans@[d])@ == tails[d],
            forall|d: int|
                0 <= d < c ==> (#[trigger] queue.chans@[d])@ == queues[d] + emitted(
                    tails[d],
                    frames@[d],
                ),
            forall|d: int| c <= d < channels ==> (#[trigger] queue.chans@[d])@ == queues[d],
        decreases channels - c,
    {
        assert(tail.chans@[c as int]@ == tails[c as int]);
        assert(queue.chans@[c as int]@ == queues[c as int]);
        assert(frames.chans@[c as int]@ == frames@[c as int]);
        assert(tails[c as int].len() == OVERLAP);
        assert(frames@[c as int].len() == FRAME_SIZE);
        let left: Vec<S> = overlap_channel(&tail.chans[c], &frames.chans[c], &mut queue.chans[c]);
        tail.chans[c] = left;
        c = c + 1;
    }
    assert(tail@ =~= all_carried(tails, frames@));
    assert(queue@ =~= all_emitted(queues, tails, frames@));
}

fn overlap_channel<S: Sample>(tail: &Vec<S>, frame: &Vec<S>, queue: &mut Vec<S>) -> (r: Vec<S>)
    requires
        total_arithmetic::<S>(),
        tail@.len() == OVERLAP,
        frame@.len() == FRAME_SIZE,
    ensures
        final(queue)@ == old(queue)@ + emitted(tail@, frame@),
        r@ == carried(tail@, frame@),
{
    let mut i: usize = 0;
    while i < SYNTHESIS_HOP
        invariant
            total_arithmetic::<S>(),
            i <= SYNTHESIS_HOP,
            tail@.len() == OVERLAP,
            frame@.len() == FRAME_SIZE,
            queue@ == old(queue)@ + emitted(tail@, frame@).take(i as int),
        decreases SYNTHESIS_HOP - i,
    {
        queue.push(tail[i] + frame[i]);
        i = i + 1;
        assert(queue@ =~= old(queue)@ + emitted(tail@, frame@).take(i as int));
    }
    assert(emitted(tail@, frame@).take(i as int) =~= emitted(tail@, frame@));
    let zero: S = whole(0);
    let mut left: Vec<S> = Vec::new();
    let mut k: usize = 0;
    while k < OVERLAP
        invariant
            total_arithmetic::<S>(),
            zero == num::<S>(0),
            k <= OVERLAP,
            tail@.len() == OVERLAP,
            frame@.len() == FRAME_SIZE,
            left@ == carried(tail@, frame@).take(k as int),
        decreases OVERLAP - k,
    {
        let from_tail: S = if k + SYNTHESIS_HOP < OVERLAP {
            tail[k + SYNTHESIS_HOP]
        } else {
            zero
        };
        left.push(from_tail + frame[k + SYNTHESIS_HOP]);
        k = k + 1;
        assert(left@ =~= carried(tail@, frame@).take(k as int));
    }
    assert(carried(tail@, frame@).take(k as int) =~= carried(tail@, frame@));
    left
}

/// How much overlapping windows add up to where a whole frame's worth of them
/// overlaps.
pub open spec fn overlap_gain<S: Sample>(window: Seq<S>) -> S {
    num::<S>(0).add_spec(window[1536]).add_spec(window[1024]).add_spec(window[512]).add_spec(
        window[0],
    )
}

/// The same for the squares of the windows.
pub open spec fn overlap_power<S: Sample>(window: Seq<S>) -> S {
    num::<S>(0).add_spec(window[1536].mul_spec(window[1536])).add_spec(
        window[1024].mul_spec(window[1024]),
    ).add_spec(window[512].mul_spec(window[512])).add_spec(window[0].mul_spec(window[0]))
}

/// How much overlapping windows add up to.
pub fn window_gain<S: Sample>(window: &Vec<S>) -> (r: S)
    requires
        total_arithmetic::<S>(),
        window@.len() == FRAME_SIZE,
    ensures
        r == overlap_gain(window@),
{
    whole::<S>(0) + window[1536] + window[1024] + window[512] + window[0]
}

/// How much the squares of overlapping windows add up to.
pub fn window_power<S: Sample>(window: &Vec<S>) -> (r: S)
    requires
        total_arithmetic::<S>(),
        window@.len() == FRAME_SIZE,
    ensures
        r == overlap_power(window@),
{
    whole::<S>(0) + window[1536] * window[1536] + window[1024] * window[1024] + window[512]
        * window[512] + window[0] * window[0]
}

/// Divides every sample of a window.
pub fn scaled_window<S: Sample>(window: &Vec<S>, divisor: S) -> (r: Vec<S>)
    requires
        total_arithmetic::<S>(),
    ensures
        r@ == window@.map_values(|w: S| w.div_spec(divisor)),
{
    let mut scaled: Vec<S> = Vec::new();
    let mut i: usize = 0;
    while i < window.len()
        invariant
            total_arithmetic::<S>(),
            i <= window@.len(),
            scaled@ =~= window@.map_values(|w: S| w.div_spec(divisor)).take(i as int),
        decreases window@.len() - i,
    {
        scaled.push(window[i] / divisor);
        i = i + 1;
    }
    assert(scaled@ =~= window@.map_values(|w: S| w.div_spec(divisor)));
    scaled
}

} // verus!
