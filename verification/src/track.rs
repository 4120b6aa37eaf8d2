//! Decoded audio, and the places a user marks in it.

use vstd::prelude::*;

pub mod peaks;

verus! {

/// A stretch of source frames, from `start` up to but without `end`.
#[derive(Clone, Copy, Debug, PartialEq, Eq, Structural)]
pub struct LoopRegion {
    pub start: u64,
    pub end: u64,
}

impl LoopRegion {
    /// At least one frame long.
    pub open spec fn proper(self) -> bool {
        self.start < self.end
    }

    /// Whether `frame` lies in the region.
    pub open spec fn holds(self, frame: u64) -> bool {
        self.start <= frame < self.end
    }
}

/// The region between two frames, whichever comes first; none if they are the
/// same.
pub open spec fn region_between(a: u64, b: u64) -> Option<LoopRegion> {
    if a < b {
        Some(LoopRegion { start: a, end: b })
    } else if b < a {
        Some(LoopRegion { start: b, end: a })
    } else {
        None
    }
}

/// A place in the track with a name.
#[derive(Clone, Debug, PartialEq, Eq)]
pub struct Marker {
    pub frame: u64,
    pub label: String,
}

/// A saved loop with a name.
#[derive(Clone, Debug, PartialEq, Eq)]
pub struct NamedLoop {
    pub start: u64,
    pub end: u64,
    pub label: String,
}

impl NamedLoop {
    /// The frames it covers.
    pub open spec fn region_spec(self) -> LoopRegion {
        LoopRegion { start: self.start, end: self.end }
    }

    /// The frames it covers.
    pub fn region(&self) -> (r: LoopRegion)
        ensures
            r == self.region_spec(),
    {
        LoopRegion { start: self.start, end: self.end }
    }
}

/// A whole track, decoded into memory.
pub struct Track<S> {
    /// Interleaved samples.
    pub samples: Vec<S>,
    pub sample_rate: u32,
    pub channels: u16,
}

impl<S> Track<S> {
    /// How many whole frames there are.
    pub open spec fn frames(self) -> nat {
        self.samples@.len() / self.channels as nat
    }

    /// How many whole frames there are.
    pub fn frame_count(&self) -> (r: u64)
        requires
            self.channels > 0,
        ensures
            r == self.frames(),
    {
        self.samples.len() as u64 / self.channels as u64
    }

    /// The sample of channel `c` in frame `f`.
    pub open spec fn sample(self, f: int, c: int) -> S {
        self.samples@[f * self.channels + c]
    }

    /// The interleaved samples of the frames from `from` up to `to`.
    pub open spec fn slice(self, from: int, to: int) -> Seq<S> {
        self.samples@.subrange(from * self.channels, to * self.channels)
    }
}

/// A stretch of frames that ends within the track has all of its samples.
pub proof fn frames_fit<S>(track: &Track<S>, from: int, to: int)
    requires
        track.channels > 0,
        0 <= from <= to <= track.frames(),
    ensures
        0 <= from * track.channels <= to * track.channels <= track.samples@.len(),
        track.slice(from, to).len() == (to - from) * track.channels,
{
    let n = track.samples@.len() as int;
    let ch = track.channels as int;
    vstd::arithmetic::div_mod::lemma_fundamental_div_mod(n, ch);
    vstd::arithmetic::mul::lemma_mul_inequality(from, to, ch);
    vstd::arithmetic::mul::lemma_mul_inequality(to, n / ch, ch);
    vstd::arithmetic::mul::lemma_mul_nonnegative(from, ch);
    vstd::arithmetic::mul::lemma_mul_is_distributive_sub_other_way(ch, to, from);
    assert(ch * (n / ch) == (n / ch) * ch) by (nonlinear_arith);
}

/// A track has at least one sample for every frame.
pub proof fn frames_bounded<S>(track: &Track<S>)
    requires
        track.channels > 0,
    ensures
        track.frames() <= track.samples@.len(),
{
    let n = track.samples@.len() as int;
    let ch = track.channels as int;
    vstd::arithmetic::div_mod::lemma_fundamental_div_mod(n, ch);
    assert(n / ch <= ch * (n / ch)) by (nonlinear_arith)
        requires
            ch >= 1,
            n / ch >= 0,
    ;
}

} // verus!
