//! A small picture of a track: the extremes of every stretch of it.

use vstd::prelude::*;

use crate::sample::{le, lt, order_laws, ordered, same, total_arithmetic, Sample};
use crate::track::{frames_fit, Track};

verus! {

/// How many frames one bucket stands for.
pub const BUCKET_FRAMES: u32 = 1024;

/// The lowest of `start` and the samples.
pub open spec fn lowest<S: Sample>(start: S, samples: Seq<S>) -> S
    decreases samples.len(),
{
    if samples.len() == 0 {
        start
    } else {
        let rest = lowest(start, samples.drop_last());
        if lt(samples.last(), rest) {
            samples.last()
        } else {
            rest
        }
    }
}

/// The highest of `start` and the samples.
pub open spec fn highest<S: Sample>(start: S, samples: Seq<S>) -> S
    decreases samples.len(),
{
    if samples.len() == 0 {
        start
    } else {
        let rest = highest(start, samples.drop_last());
        if lt(rest, samples.last()) {
            samples.last()
        } else {
            rest
        }
    }
}

/// The lowest and the highest sample of every bucket, over all channels.
pub struct TrackPeaks<S> {
    pub min: Vec<S>,
    pub max: Vec<S>,
}

/// How many buckets `frames` frames fill, the last one perhaps in part.
pub open spec fn bucket_count(frames: nat) -> nat {
    (frames + BUCKET_FRAMES as nat - 1) as nat / BUCKET_FRAMES as nat
}

/// The frame after the last one of bucket `b`.
pub open spec fn bucket_end(frames: nat, b: int) -> int {
    if (b + 1) * BUCKET_FRAMES <= frames {
        (b + 1) * BUCKET_FRAMES
    } else {
        frames as int
    }
}

/// The samples of bucket `b`.
pub open spec fn bucket<S>(track: Track<S>, b: int) -> Seq<S> {
    track.slice(b * BUCKET_FRAMES, bucket_end(track.frames(), b))
}

impl<S: Sample> TrackPeaks<S> {
    /// The picture of `track`: bucket by bucket the lowest and the highest
    /// sample in it.
    pub open spec fn pictures(self, track: Track<S>) -> bool {
        let n = bucket_count(track.frames());
        &&& self.min@.len() == n
        &&& self.max@.len() == n
        &&& forall|b: int|
            0 <= b < n ==> #[trigger] self.min@[b] == lowest(
                bucket(track, b)[0],
                bucket(track, b),
            )
        &&& forall|b: int|
            0 <= b < n ==> #[trigger] self.max@[b] == highest(
                bucket(track, b)[0],
                bucket(track, b),
            )
    }

    /// Finds the extremes of every bucket of a track.
    pub fn compute(track: &Track<S>) -> (r: TrackPeaks<S>)
        requires
            total_arithmetic::<S>(),
            track.channels > 0,
        ensures
            r.pictures(*track),
    {
        let channels: usize = track.channels as usize;
        let bucket_frames: usize = BUCKET_FRAMES as usize;
        let samples: usize = track.samples.len();
        let total: usize = samples / channels;
        let mut min: Vec<S> = Vec::new();
        let mut max: Vec<S> = Vec::new();
        let mut frame: usize = 0;
        while frame < total
            invariant
                total_arithmetic::<S>(),
                channels == track.channels,
                channels > 0,
                bucket_frames == BUCKET_FRAMES,
                samples == track.samples@.len(),
                total == track.frames(),
                frame <= total,
                frame == total || frame == min@.len() * BUCKET_FRAMES,
                min@.len() == bucket_count(frame as nat),
                max@.len() == min@.len(),
                forall|b: int|
                    0 <= b < min@.len() ==> #[trigger] min@[b] == lowest(
                        bucket(*track, b)[0],
                        bucket(*track, b),
                    ),
                forall|b: int|
                    0 <= b < max@.len() ==> #[trigger] max@[b] == highest(
                        bucket(*track, b)[0],
                        bucket(*track, b),
                    ),
            decreases total - frame,
        {
            let end: usize = if total - frame > bucket_frames {
                frame + bucket_frames
            } else {
                total
            };
            proof {
                frames_fit(track, frame as int, end as int);
                vstd::arithmetic::mul::lemma_mul_is_distributive_add_other_way(
                    BUCKET_FRAMES as int,
                    min@.len() as int,
                    1,
                );
            }
            let first: usize = frame * channels;
            let last: usize = end * channels;
            proof {
                vstd::arithmetic::mul::lemma_mul_inequality(
                    frame + 1,
                    end as int,
                    channels as int,
                );
                vstd::arithmetic::mul::lemma_mul_is_distributive_add_other_way(
                    channels as int,
                    frame as int,
                    1,
                );
                assert(bucket(*track, min@.len() as int) == track.samples@.subrange(
                    first as int,
                    last as int,
                ));
            }
            let (lo, hi) = extremes(track.samples[first], &track.samples, first, last);
            min.push(lo);
            max.push(hi);
            frame = end;
        }
        TrackPeaks { min, max }
    }

    /// How many buckets there are.
    pub fn len(&self) -> (r: usize)
        ensures
            r == self.min@.len(),
    {
        self.min.len()
    }
}

/// The lowest and the highest of `start` and the samples from `first` up to
/// `last`.
pub fn extremes<S: Sample>(start: S, samples: &Vec<S>, first: usize, last: usize) -> (r: (S, S))
    requires
        ordered::<S>(),
        first <= last <= samples@.len(),
    ensures
        r.0 == lowest(start, samples@.subrange(first as int, last as int)),
        r.1 == highest(start, samples@.subrange(first as int, last as int)),
        order_laws::<S>() && all_defined(samples@.subrange(first as int, last as int)) && same(
            start,
            start,
        ) ==> {
            &&& le(r.0, start) && le(start, r.1)
            &&& forall|i: int|
                first <= i < last ==> le(r.0, #[trigger] samples@[i]) && le(samples@[i], r.1)
            &&& r.0 == start || samples@.subrange(first as int, last as int).contains(r.0)
            &&& r.1 == start || samples@.subrange(first as int, last as int).contains(r.1)
        },
{
    let mut lo: S = start;
    let mut hi: S = start;
    let mut i: usize = first;
    while i < last
        invariant
            ordered::<S>(),
            first <= i <= last <= samples@.len(),
            lo == lowest(start, samples@.subrange(first as int, i as int)),
            hi == highest(start, samples@.subrange(first as int, i as int)),
        decreases last - i,
    {
        let s: S = samples[i];
        assert(samples@.subrange(first as int, i + 1).drop_last() =~= samples@.subrange(
            first as int,
            i as int,
        ));
        if s < lo {
            lo = s;
        }
        if hi < s {
            hi = s;
        }
        i = i + 1;
    }
    proof {
        let part = samples@.subrange(first as int, last as int);
        if order_laws::<S>() && all_defined(part) && same(start, start) {
            extremes_bound_and_occur(start, part);
            assert forall|j: int| first <= j < last implies le(lo, #[trigger] samples@[j]) && le(
                samples@[j],
                hi,
            ) by {
                assert(part[j - first] == samples@[j]);
            }
        }
    }
    (lo, hi)
}

/// None of the samples is undefined.
pub open spec fn all_defined<S: Sample>(samples: Seq<S>) -> bool {
    forall|i: int| 0 <= i < samples.len() ==> same(#[trigger] samples[i], samples[i])
}

/// No sample lies outside the extremes, and both are among the samples, unless
/// they are what the search began with.
pub proof fn extremes_bound_and_occur<S: Sample>(start: S, samples: Seq<S>)
    requires
        order_laws::<S>(),
        same(start, start),
        all_defined(samples),
    ensures
        le(lowest(start, samples), start),
        le(start, highest(start, samples)),
        forall|i: int|
            0 <= i < samples.len() ==> le(lowest(start, samples), #[trigger] samples[i]) && le(
                samples[i],
                highest(start, samples),
            ),
        lowest(start, samples) == start || samples.contains(lowest(start, samples)),
        highest(start, samples) == start || samples.contains(highest(start, samples)),
    decreases samples.len(),
{
    if samples.len() > 0 {
        let rest = samples.drop_last();
        let last = samples.last();
        assert forall|i: int| 0 <= i < rest.len() implies same(#[trigger] rest[i], rest[i]) by {
            assert(rest[i] == samples[i]);
        }
        extremes_bound_and_occur(start, rest);
        let lo = lowest(start, rest);
        let hi = highest(start, rest);
        assert(same(last, last));
        assert(same(lo, lo) && same(hi, hi));
        assert(le(lowest(start, samples), lo) && le(lowest(start, samples), last));
        assert(le(hi, highest(start, samples)) && le(last, highest(start, samples)));
        assert(samples.contains(last));
        assert forall|i: int| 0 <= i < samples.len() implies le(
            lowest(start, samples),
            #[trigger] samples[i],
        ) && le(samples[i], highest(start, samples)) by {
            if i < rest.len() {
                assert(rest[i] == samples[i]);
                assert(le(lo, samples[i]) && le(samples[i], hi));
            }
        }
        if rest.contains(lo) {
            let i = rest.index_of(lo);
            assert(samples[i] == lo);
        }
        if rest.contains(hi) {
            let i = rest.index_of(hi);
            assert(samples[i] == hi);
        }
    }
}

/// In the picture of a track, no sample lies below the minimum or above the
/// maximum of its bucket, and both are samples of that bucket.
pub proof fn pictures_show_the_extremes<S: Sample>(peaks: TrackPeaks<S>, track: Track<S>, b: int)
    requires
        order_laws::<S>(),
        track.channels > 0,
        peaks.pictures(track),
        0 <= b < bucket_count(track.frames()),
        all_defined(bucket(track, b)),
    ensures
        forall|f: int, c: int|
            b * BUCKET_FRAMES <= f < bucket_end(track.frames(), b) && 0 <= c < track.channels ==> {
                &&& le(peaks.min@[b], #[trigger] track.sample(f, c))
                &&& le(track.sample(f, c), peaks.max@[b])
            },
        bucket(track, b).contains(peaks.min@[b]),
        bucket(track, b).contains(peaks.max@[b]),
{
    let part = bucket(track, b);
    let from = b * BUCKET_FRAMES;
    let to = bucket_end(track.frames(), b);
    let ch = track.channels as int;
    frames_fit(&track, from, to);
    assert(from < to);
    assert((from + 1) * ch <= to * ch && (from + 1) * ch == from * ch + ch) by (nonlinear_arith)
        requires
            from < to,
            ch > 0,
    ;
    assert(part.len() > 0);
    assert(part.contains(part[0]));
    extremes_bound_and_occur(part[0], part);
    assert forall|f: int, c: int| from <= f < to && 0 <= c < track.channels implies {
        &&& le(peaks.min@[b], #[trigger] track.sample(f, c))
        &&& le(track.sample(f, c), peaks.max@[b])
    } by {
        let i = f * ch + c - from * ch;
        assert(0 <= i < to * ch - from * ch) by (nonlinear_arith)
            requires
                from <= f < to,
                0 <= c < ch,
                i == f * ch + c - from * ch,
        ;
        assert(part[i] == track.sample(f, c));
    }
}

/// Every frame of a track belongs to exactly one bucket of its picture.
pub proof fn every_frame_has_one_bucket(frames: nat, f: int, b: int)
    requires
        0 <= f < frames,
        0 <= b < bucket_count(frames),
    ensures
        0 <= f / BUCKET_FRAMES as int,
        f / (BUCKET_FRAMES as int) < bucket_count(frames),
        b * BUCKET_FRAMES <= f < bucket_end(frames, b) <==> b == f / BUCKET_FRAMES as int,
{
}

} // verus!
