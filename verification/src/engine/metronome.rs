//! The metronome: which beats fall into a stretch of output, and the clicks
//! that sound there.

use vstd::arithmetic::div_mod::lemma_fundamental_div_mod;
use vstd::arithmetic::mul::{
    lemma_mul_inequality, lemma_mul_is_commutative, lemma_mul_is_distributive_add_other_way,
};
use vstd::arithmetic::power2::{
    lemma2_to64, lemma_pow2_pos, lemma_pow2_strictly_increases, lemma_pow2_unfold, pow2,
};
use vstd::prelude::*;
use vstd::std_specs::ops::{AddSpec, MulSpec, SubSpec};

use crate::frames::{row_of, row_range};
use crate::sample::{
    finite, is_finite, le, lt, num, real_like, same, total_arithmetic, whole, Sample,
};

pub mod laws;

verus! {

/// The slowest tempo the metronome clicks at, in beats per minute.
pub const MIN_BPM: i16 = 20;

/// The fastest tempo that can be dialed in, in beats per minute.
pub const MAX_BPM: i16 = 400;

/// What the user can set on the metronome.
#[derive(Clone, Copy, Debug, PartialEq)]
pub struct MetronomeSettings<S> {
    pub enabled: bool,
    pub bpm: S,
    pub accent: bool,
    pub beats_per_measure: u32,
    pub volume_db: S,
}

impl<S: Sample> MetronomeSettings<S> {
    /// Off, 120 beats per minute, four to the measure with an accent, 6 dB
    /// below full scale.
    pub open spec fn initial() -> MetronomeSettings<S> {
        MetronomeSettings {
            enabled: false,
            bpm: num(120),
            accent: true,
            beats_per_measure: 4,
            volume_db: num(-6i16),
        }
    }

    /// The settings of a metronome that nobody has touched.
    pub fn defaults() -> (r: MetronomeSettings<S>)
        requires
            total_arithmetic::<S>(),
        ensures
            r == Self::initial(),
    {
        MetronomeSettings {
            enabled: false,
            bpm: whole(120),
            accent: true,
            beats_per_measure: 4,
            volume_db: whole(-6),
        }
    }
}

/// A click that is sounding.
#[derive(Clone, Copy, Debug, PartialEq, Eq, Structural)]
pub struct Voice {
    pub accent: bool,
    /// Samples of the click that have sounded already.
    pub pos: usize,
}

/// Schedules beats by source frame and mixes their clicks into the output.
///
/// Beat `k` falls on source frame `anchor_frame + k * frames_per_beat`. At most one
/// click sounds at a time: a new beat cuts off the click before it.
pub struct Metronome<S> {
    pub settings: MetronomeSettings<S>,
    pub sample_rate: u32,
    pub anchor_frame: u64,
    pub click_normal: Vec<S>,
    pub click_accent: Vec<S>,
    pub voice: Option<Voice>,
}

/// A stretch of output and the source frames it was made from.
pub struct Segment {
    pub source_start: u64,
    pub source_consumed: u64,
    pub out_frames: usize,
}

/// The output frame at which source frame `frame` is heard.
pub open spec fn onset(seg: Segment, frame: int) -> int {
    ((frame - seg.source_start) * seg.out_frames as int) / seg.source_consumed as int
}

/// The frame after the last one of the segment. Frames are counted up to
/// `u64::MAX`, so there it ends in any case.
pub open spec fn segment_end(seg: Segment) -> int {
    if seg.source_start + seg.source_consumed > u64::MAX {
        u64::MAX as int
    } else {
        seg.source_start + seg.source_consumed
    }
}

/// The last source frame of the segment that is heard at output frame `f` or
/// before.
pub open spec fn heard_until(seg: Segment, f: int) -> int {
    let last = seg.source_start + ((f + 1) * seg.source_consumed as int - 1)
        / seg.out_frames as int;
    if f >= seg.out_frames || last >= segment_end(seg) {
        segment_end(seg) - 1
    } else {
        last
    }
}

/// The source frame of beat `k`.
pub open spec fn beat_frame(anchor: u64, frames_per_beat: u64, k: int) -> int {
    anchor + k * frames_per_beat
}

/// The latest beat of the segment that is heard at output frame `f` or before.
pub open spec fn latest_beat(anchor: u64, frames_per_beat: u64, seg: Segment, f: int) -> Option<
    int,
> {
    let k = (heard_until(seg, f) - anchor) / frames_per_beat as int;
    if heard_until(seg, f) >= anchor && beat_frame(anchor, frames_per_beat, k)
        >= seg.source_start {
        Some(k)
    } else {
        None
    }
}

/// The samples of a click lie between minus one and one.
pub open spec fn within_full_scale<S: Sample>(click: Seq<S>) -> bool {
    forall|i: int|
        0 <= i < click.len() ==> le(num(-1i16), #[trigger] click[i]) && le(click[i], num(1))
}

impl<S: Sample> Metronome<S> {
    /// No click exceeds full scale.
    pub open spec fn wf(self) -> bool {
        within_full_scale(self.click_normal@) && within_full_scale(self.click_accent@)
    }

    /// The samples of a click.
    pub open spec fn click(self, accent: bool) -> Seq<S> {
        if accent {
            self.click_accent@
        } else {
            self.click_normal@
        }
    }

    /// Whether beat `k` opens a measure that is to be accented.
    pub open spec fn accented(self, k: int) -> bool {
        &&& self.settings.accent
        &&& self.settings.beats_per_measure > 0
        &&& k % self.settings.beats_per_measure as int == 0
    }

    /// Which click sounds at output frame `f` of a segment, and how far into
    /// it: that of the latest beat, or else the one that was sounding before.
    pub open spec fn voice_at(self, frames_per_beat: u64, seg: Segment, f: int) -> Option<
        (bool, int),
    > {
        match latest_beat(self.anchor_frame, frames_per_beat, seg, f) {
            Some(k) => Some(
                (
                    self.accented(k),
                    f - onset(seg, beat_frame(self.anchor_frame, frames_per_beat, k)),
                ),
            ),
            None => match self.voice {
                Some(v) => Some((v.accent, v.pos + f)),
                None => None,
            },
        }
    }

    /// A click that has run out is no click.
    pub open spec fn live(self, voice: Option<(bool, int)>) -> Option<(bool, int)> {
        match voice {
            Some((accent, pos)) => if pos < self.click(accent).len() {
                voice
            } else {
                None
            },
            None => None,
        }
    }

    /// One output sample with what sounds there mixed in.
    pub open spec fn with_click(self, x: S, voice: Option<(bool, int)>, amp: S) -> S {
        match self.live(voice) {
            Some((accent, pos)) => x.add_spec(self.click(accent)[pos].mul_spec(amp)),
            None => x,
        }
    }

    /// Whether the metronome has anything to do with a stretch of output.
    pub open spec fn clicking(self, channels: usize, frames_per_beat: u64, seg: Segment) -> bool {
        &&& self.settings.enabled
        &&& self.sample_rate != 0
        &&& channels != 0
        &&& finite(self.settings.bpm)
        &&& !lt(self.settings.bpm, num(MIN_BPM))
        &&& seg.out_frames > 0
        &&& seg.source_consumed > 0
        &&& frames_per_beat > 0
    }

    /// The stretch of output with the clicks mixed into every channel.
    pub open spec fn mixed(
        self,
        out: Seq<S>,
        channels: usize,
        frames_per_beat: u64,
        amp: S,
        seg: Segment,
    ) -> Seq<S> {
        Seq::new(
            out.len(),
            |i: int|
                if i / channels as int >= seg.out_frames {
                    out[i]
                } else {
                    self.with_click(
                        out[i],
                        self.voice_at(frames_per_beat, seg, i / channels as int),
                        amp,
                    )
                },
        )
    }

    /// The same metronome with another click sounding.
    pub open spec fn sounding(self, voice: Option<(bool, int)>) -> Metronome<S> {
        Metronome {
            voice: match self.live(voice) {
                Some((accent, pos)) => Some(Voice { accent, pos: pos as usize }),
                None => None,
            },
            ..self
        }
    }

    /// Mixes the click that is sounding into the frames from `from` up to
    /// `to` of an interleaved buffer, and moves it on by as many frames.
    fn mix_voice(&mut self, out: &mut [S], channels: usize, from: usize, to: usize, amp: S)
        requires
            total_arithmetic::<S>(),
            channels > 0,
            from < to,
            to * channels <= old(out)@.len(),
        ensures
            final(out)@.len() == old(out)@.len(),
            forall|i: int|
                0 <= i < old(out)@.len() ==> #[trigger] final(out)@[i] == if from <= i
                    / channels as int && i / (channels as int) < to {
                    old(self).with_click(
                        old(out)@[i],
                        old(self).moved(i / channels as int - from),
                        amp,
                    )
                } else {
                    old(out)@[i]
                },
            *final(self) == old(self).sounding(old(self).moved(to - from)),
    {
        let mut v: Voice = match self.voice {
            Some(v) => v,
            None => {
                return ;
            },
        };
        let len: usize = if v.accent {
            self.click_accent.len()
        } else {
            self.click_normal.len()
        };
        let ghost start = v.pos;
        let samples: usize = out.len();
        let mut frame: usize = from;
        while frame < to && v.pos < len
            invariant
                total_arithmetic::<S>(),
                channels > 0,
                from <= frame <= to,
                to * channels <= samples,
                samples == old(out)@.len(),
                out@.len() == old(out)@.len(),
                *self == *old(self),
                self.voice == Some(Voice { accent: v.accent, pos: start }),
                len == self.click(v.accent).len(),
                v.pos == start + (frame - from),
                frame > from ==> v.pos <= len,
                forall|i: int|
                    0 <= i < out@.len() ==> #[trigger] out@[i] == if from <= i / channels as int
                        && i / (channels as int) < frame {
                        old(self).with_click(
                            old(out)@[i],
                            old(self).moved(i / channels as int - from),
                            amp,
                        )
                    } else {
                        old(out)@[i]
                    },
            decreases to - frame,
        {
            let s: S = if v.accent {
                self.click_accent[v.pos] * amp
            } else {
                self.click_normal[v.pos] * amp
            };
            proof {
                lemma_mul_inequality(frame + 1, to as int, channels as int);
                lemma_mul_inequality(frame as int, to as int, channels as int);
                lemma_mul_is_distributive_add_other_way(channels as int, frame as int, 1);
            }
            let base: usize = frame * channels;
            let mut c: usize = 0;
            while c < channels
                invariant
                    total_arithmetic::<S>(),
                    channels > 0,
                    c <= channels,
                    from <= frame < to,
                    base == frame * channels,
                    base + channels <= out@.len(),
                    out@.len() == old(out)@.len(),
                    *self == *old(self),
                    self.voice == Some(Voice { accent: v.accent, pos: start }),
                    v.pos == start + (frame - from),
                    v.pos < self.click(v.accent).len(),
                    s == self.click(v.accent)[v.pos as int].mul_spec(amp),
                    forall|i: int|
                        0 <= i < out@.len() ==> #[trigger] out@[i] == if (from <= i
                            / channels as int && i / (channels as int) < frame) || base <= i < base
                            + c {
                            old(self).with_click(
                                old(out)@[i],
                                old(self).moved(i / channels as int - from),
                                amp,
                            )
                        } else {
                            old(out)@[i]
                        },
                decreases channels - c,
            {
                let x: S = out[base + c];
                proof {
                    row_of(frame as int, channels as int, c as int);
                }
                out[base + c] = x + s;
                c = c + 1;
            }
            assert forall|i: int| 0 <= i < out@.len() implies #[trigger] out@[i] == if from <= i
                / channels as int && i / (channels as int) < frame + 1 {
                old(self).with_click(
                    old(out)@[i],
                    old(self).moved(i / channels as int - from),
                    amp,
                )
            } else {
                old(out)@[i]
            } by {
                row_range(i, frame as int, channels as int);
            }
            v.pos = v.pos + 1;
            frame = frame + 1;
        }
        if v.pos >= len {
            self.voice = None;
        } else {
            self.voice = Some(v);
        }
    }

    /// The click that is sounding, `frames` frames later.
    pub open spec fn moved(self, frames: int) -> Option<(bool, int)> {
        match self.voice {
            Some(v) => Some((v.accent, v.pos + frames)),
            None => None,
        }
    }

    /// The metronome after a stretch of output, and the output with the
    /// clicks in it.
    pub open spec fn after_segment(
        self,
        out: Seq<S>,
        channels: usize,
        source_start: u64,
        source_consumed: u64,
        frames_per_beat: u64,
        amp: S,
    ) -> (Metronome<S>, Seq<S>) {
        let seg = Segment {
            source_start,
            source_consumed,
            out_frames: (out.len() / channels as nat) as usize,
        };
        if self.clicking(channels, frames_per_beat, seg) {
            (
                self.sounding(self.voice_at(frames_per_beat, seg, seg.out_frames as int)),
                self.mixed(out, channels, frames_per_beat, amp, seg),
            )
        } else {
            (self, out)
        }
    }

    /// Mixes clicks into a stretch of interleaved output in place.
    ///
    /// The output was made from the `source_consumed` source frames from
    /// `source_start` on. A beat on one of them is heard at the matching
    /// fraction of the output. `frames_per_beat` is the distance of two beats
    /// in source frames, and `amp` the linear gain of a click.
    pub fn mix_segment(
        &mut self,
        out: &mut [S],
        channels: usize,
        source_start: u64,
        source_consumed: u64,
        frames_per_beat: u64,
        amp: S,
    )
        requires
            total_arithmetic::<S>(),
        ensures
            (*final(self), final(out)@) == old(self).after_segment(
                old(out)@,
                channels,
                source_start,
                source_consumed,
                frames_per_beat,
                amp,
            ),
    {
        if !self.settings.enabled || self.sample_rate == 0 || channels == 0 {
            return ;
        }
        let bpm: S = self.settings.bpm;
        if !is_finite(bpm) || bpm < whole(MIN_BPM) {
            return ;
        }
        let out_frames: usize = out.len() / channels;
        if out_frames == 0 || source_consumed == 0 || frames_per_beat == 0 {
            return ;
        }
        let ghost seg = Segment { source_start, source_consumed, out_frames };
        let ghost before = out@;
        let ghost start = *self;
        let anchor: u64 = self.anchor_frame;
        let source_end: u64 = source_start.saturating_add(source_consumed);
        // The first beat that is not before the segment. One beyond the range
        // of frames is as good as none: the segment ends before it.
        let mut beat: u64 = anchor;
        let ghost mut first: int = 0;
        if source_start > anchor {
            let offset: u64 = source_start - anchor;
            let behind: u64 = offset % frames_per_beat;
            proof {
                first = offset as int / frames_per_beat as int;
                lemma_fundamental_div_mod(offset as int, frames_per_beat as int);
                lemma_mul_is_commutative(first, frames_per_beat as int);
                beats_apart(anchor, frames_per_beat, first);
                assert(beat_frame(anchor, frames_per_beat, first) == source_start - behind);
                if behind > 0 {
                    first = first + 1;
                }
            }
            beat = if behind == 0 {
                source_start
            } else {
                source_start.saturating_add(frames_per_beat - behind)
            };
        }
        let ghost mut k: int = first;
        let mut out_cursor: usize = 0;
        proof {
            beats_apart(anchor, frames_per_beat, first);
            lemma_fundamental_div_mod(out@.len() as int, channels as int);
            lemma_mul_is_commutative(out_frames as int, channels as int);
        }
        while beat < source_end
            invariant
                total_arithmetic::<S>(),
                channels > 0,
                frames_per_beat > 0,
                source_consumed > 0,
                source_end == segment_end(seg),
                seg == (Segment { source_start, source_consumed, out_frames }),
                out_cursor < out_frames,
                out_frames * channels <= before.len(),
                out@.len() == before.len(),
                anchor == start.anchor_frame,
                *self == (Metronome { voice: self.voice, ..start }),
                0 <= first <= k,
                first > 0 ==> beat_frame(anchor, frames_per_beat, first - 1) < source_start,
                beat_frame(anchor, frames_per_beat, k) >= source_start,
                beat == beat_frame(anchor, frames_per_beat, k) || (beat == u64::MAX
                    && beat_frame(anchor, frames_per_beat, k) > u64::MAX),
                k > first ==> {
                    let last = beat_frame(anchor, frames_per_beat, k - 1);
                    &&& source_start <= last < source_end
                    &&& out_cursor == onset(seg, last)
                    &&& self.voice == Some(Voice { accent: start.accented(k - 1), pos: 0 })
                },
                k == first ==> out_cursor == 0 && self.voice == start.voice,
                forall|i: int|
                    0 <= i < before.len() ==> #[trigger] out@[i] == if i / channels as int
                        >= out_cursor {
                        before[i]
                    } else {
                        start.with_click(
                            before[i],
                            start.voice_at(frames_per_beat, seg, i / channels as int),
                            amp,
                        )
                    },
            decreases u64::MAX - beat,
        {
            let src_offset: u64 = beat - source_start;
            let out_offset: usize = proportional(src_offset, source_consumed, out_frames);
            let ghost seen = *self;
            let ghost mid = out@;
            proof {
                heard_iff(seg, beat as int, out_cursor as int);
                beats_apart(anchor, frames_per_beat, k);
                beats_apart(anchor, frames_per_beat, k + 1);
                lemma_mul_inequality(out_offset as int, out_frames as int, channels as int);
                if k > first {
                    onset_ordered(
                        seg,
                        beat_frame(anchor, frames_per_beat, k - 1),
                        beat as int,
                    );
                }
            }
            if out_cursor < out_offset {
                self.mix_voice(out, channels, out_cursor, out_offset, amp);
            }
            proof {
                assert forall|i: int| 0 <= i < before.len() implies #[trigger] out@[i] == if i
                    / channels as int >= out_offset {
                    before[i]
                } else {
                    start.with_click(
                        before[i],
                        start.voice_at(frames_per_beat, seg, i / channels as int),
                        amp,
                    )
                } by {
                    let f = i / channels as int;
                    if out_cursor <= f < out_offset {
                        heard_iff(seg, beat as int, f);
                        if k > first {
                            heard_iff(seg, beat_frame(anchor, frames_per_beat, k - 1), f);
                        }
                        latest_is(anchor, frames_per_beat, seg, first, k, f);
                        assert(start.voice_at(frames_per_beat, seg, f) == seen.moved(
                            f - out_cursor,
                        ));
                        assert(mid[i] == before[i]);
                    }
                }
                vstd::arithmetic::div_mod::lemma_div_multiples_vanish(k, frames_per_beat as int);
            }
            let beat_idx: u64 = (beat - anchor) / frames_per_beat;
            assert(beat_idx == k);
            let accent: bool = self.settings.accent && self.settings.beats_per_measure > 0
                && beat_idx % (self.settings.beats_per_measure as u64) == 0;
            self.voice = Some(Voice { accent, pos: 0 });
            out_cursor = out_offset;
            beat = beat.saturating_add(frames_per_beat);
            proof {
                k = k + 1;
            }
        }
        let ghost seen = *self;
        let ghost mid = out@;
        self.mix_voice(out, channels, out_cursor, out_frames, amp);
        proof {
            assert forall|f: int| out_cursor <= f <= out_frames implies #[trigger] start.voice_at(
                frames_per_beat,
                seg,
                f,
            ) == seen.moved(f - out_cursor) by {
                if k > first {
                    heard_iff(seg, beat_frame(anchor, frames_per_beat, k - 1), f);
                }
                latest_is(anchor, frames_per_beat, seg, first, k, f);
            }
            assert forall|i: int| 0 <= i < before.len() implies #[trigger] out@[i] == start.mixed(
                before,
                channels,
                frames_per_beat,
                amp,
                seg,
            )[i] by {
                assert(mid.len() == before.len());
                let f = i / channels as int;
                if out_cursor <= f < out_frames {
                    assert(start.voice_at(frames_per_beat, seg, f) == seen.moved(f - out_cursor));
                }
            }
            assert(out@ =~= start.mixed(before, channels, frames_per_beat, amp, seg));
            assert(start.voice_at(frames_per_beat, seg, out_frames as int) == seen.moved(
                out_frames - out_cursor,
            ));
        }
    }
}

/// The part of `frames` that answers to `part` out of `whole`, rounded down.
pub fn proportional(part: u64, whole: u64, frames: usize) -> (r: usize)
    requires
        part <= whole,
        whole > 0,
    ensures
        r == (part * frames) / whole as int,
        r <= frames,
        part < whole && frames > 0 ==> r < frames,
{
    proof {
        share_bounded(part as int, whole as int, frames as int);
        assert(part * frames <= u64::MAX * usize::MAX) by (nonlinear_arith)
            requires
                part <= u64::MAX,
                frames <= usize::MAX,
        ;
    }
    let product: u128 = (part as u128) * (frames as u128);
    (product / (whole as u128)) as usize
}

/// A part of a whole gets no more than all of the frames.
proof fn share_bounded(part: int, whole: int, frames: int)
    requires
        0 <= part <= whole,
        0 < whole,
        0 <= frames,
    ensures
        0 <= part * frames,
        0 <= (part * frames) / whole <= frames,
        part < whole && frames > 0 ==> (part * frames) / whole < frames,
{
    lemma_mul_inequality(part, whole, frames);
    assert(0 <= part * frames) by (nonlinear_arith)
        requires
            0 <= part,
            0 <= frames,
    ;
    lemma_fundamental_div_mod(part * frames, whole);
    let q = (part * frames) / whole;
    assert(q <= frames) by (nonlinear_arith)
        requires
            whole * q <= part * frames,
            part * frames <= whole * frames,
            whole > 0,
    ;
    if part < whole && frames > 0 {
        assert(q < frames) by (nonlinear_arith)
            requires
                whole * q <= part * frames,
                part < whole,
                frames > 0,
                whole > 0,
        ;
    }
    vstd::arithmetic::div_mod::lemma_div_pos_is_pos(part * frames, whole);
}

/// Beats are evenly spaced.
proof fn beats_apart(anchor: u64, frames_per_beat: u64, k: int)
    ensures
        beat_frame(anchor, frames_per_beat, k + 1) == beat_frame(anchor, frames_per_beat, k)
            + frames_per_beat,
        beat_frame(anchor, frames_per_beat, k - 1) == beat_frame(anchor, frames_per_beat, k)
            - frames_per_beat,
        beat_frame(anchor, frames_per_beat, 0) == anchor,
{
    assert((k + 1) * frames_per_beat == k * frames_per_beat + frames_per_beat) by (nonlinear_arith);
    assert((k - 1) * frames_per_beat == k * frames_per_beat - frames_per_beat) by (nonlinear_arith);
}

/// A frame of the segment is heard by output frame `f` exactly where it is
/// not after the last frame heard by then.
proof fn heard_iff(seg: Segment, frame: int, f: int)
    requires
        seg.source_start <= frame < segment_end(seg),
        seg.out_frames > 0,
        0 <= f,
    ensures
        onset(seg, frame) <= f <==> frame <= heard_until(seg, f),
        0 <= onset(seg, frame) < seg.out_frames,
{
    let x = frame - seg.source_start;
    let o = seg.out_frames as int;
    let c = seg.source_consumed as int;
    share_bounded(x, c, o);
    if f < o {
        let q = (x * o) / c;
        let top = (f + 1) * c - 1;
        let h = top / o;
        lemma_fundamental_div_mod(x * o, c);
        lemma_fundamental_div_mod(top, o);
        if q <= f {
            assert(x * o <= top) by (nonlinear_arith)
                requires
                    x * o < c * q + c,
                    q <= f,
                    c > 0,
                    top == (f + 1) * c - 1,
            ;
            assert(x <= h) by (nonlinear_arith)
                requires
                    x * o <= top,
                    top < o * h + o,
                    o > 0,
            ;
        } else {
            assert(x * o > top) by (nonlinear_arith)
                requires
                    x * o >= c * q,
                    q >= f + 1,
                    c > 0,
                    top == (f + 1) * c - 1,
            ;
            assert(x > h) by (nonlinear_arith)
                requires
                    x * o > top,
                    top >= o * h,
                    o > 0,
            ;
        }
    }
}

/// Later frames are not heard earlier.
proof fn onset_ordered(seg: Segment, a: int, b: int)
    requires
        seg.source_start <= a <= b,
        seg.source_consumed > 0,
    ensures
        onset(seg, a) <= onset(seg, b),
{
    lemma_mul_inequality(a - seg.source_start, b - seg.source_start, seg.out_frames as int);
    vstd::arithmetic::div_mod::lemma_div_is_ordered(
        (a - seg.source_start) * seg.out_frames as int,
        (b - seg.source_start) * seg.out_frames as int,
        seg.source_consumed as int,
    );
}

/// Where beat `k` is not heard yet and the one before it is, that one is the
/// latest; where `k` is the first beat of the segment, there is none.
proof fn latest_is(
    anchor: u64,
    frames_per_beat: u64,
    seg: Segment,
    first: int,
    k: int,
    f: int,
)
    requires
        frames_per_beat > 0,
        0 <= first <= k,
        first > 0 ==> beat_frame(anchor, frames_per_beat, first - 1) < seg.source_start,
        beat_frame(anchor, frames_per_beat, k) > heard_until(seg, f),
        k > first ==> seg.source_start <= beat_frame(anchor, frames_per_beat, k - 1)
            <= heard_until(seg, f),
    ensures
        latest_beat(anchor, frames_per_beat, seg, f) == if k > first {
            Some(k - 1)
        } else {
            None
        },
{
    let d = heard_until(seg, f) - anchor;
    let p = frames_per_beat as int;
    let q = d / p;
    beats_apart(anchor, frames_per_beat, k);
    lemma_fundamental_div_mod(d, p);
    if k > first {
        assert((k - 1) * p >= 0) by (nonlinear_arith)
            requires
                k >= 1,
                p > 0,
        ;
        assert(q == k - 1) by (nonlinear_arith)
            requires
                d == p * q + d % p,
                0 <= d % p < p,
                (k - 1) * p <= d < (k - 1) * p + p,
                p > 0,
        ;
    } else if d >= 0 {
        assert(q < k) by (nonlinear_arith)
            requires
                d == p * q + d % p,
                0 <= d % p < p,
                d < k * p,
                p > 0,
        ;
        assert(0 <= q) by (nonlinear_arith)
            requires
                d == p * q + d % p,
                0 <= d % p < p,
                d >= 0,
                p > 0,
        ;
        lemma_mul_inequality(q, k - 1, p);
    }
}

impl<S: Sample> Metronome<S> {
    /// A metronome that is switched off and has no clicks yet.
    pub fn new() -> (r: Metronome<S>)
        requires
            total_arithmetic::<S>(),
        ensures
            r.wf(),
            r.settings == MetronomeSettings::<S>::initial(),
            r.sample_rate == 0,
            r.anchor_frame == 0,
            r.click_normal@ == Seq::<S>::empty(),
            r.click_accent@ == Seq::<S>::empty(),
            r.voice is None,
    {
        Metronome {
            settings: MetronomeSettings::defaults(),
            sample_rate: 0,
            anchor_frame: 0,
            click_normal: Vec::new(),
            click_accent: Vec::new(),
            voice: None,
        }
    }

    /// Takes over the clicks for a sample rate, unless they are there already.
    pub fn set_sample_rate(&mut self, sample_rate: u32, click_normal: Vec<S>, click_accent: Vec<S>)
        ensures
            old(self).wf() && within_full_scale(click_normal@) && within_full_scale(click_accent@)
                ==> final(self).wf(),
            *final(self) == if old(self).sample_rate == sample_rate {
                *old(self)
            } else {
                Metronome {
                    sample_rate,
                    click_normal,
                    click_accent,
                    voice: None,
                    ..*old(self)
                }
            },
    {
        if self.sample_rate == sample_rate {
            return ;
        }
        self.sample_rate = sample_rate;
        self.click_normal = click_normal;
        self.click_accent = click_accent;
        self.voice = None;
    }

    /// The tempo of the track, as the user dialed it in.
    pub fn bpm(&self) -> (r: S)
        ensures
            r == self.settings.bpm,
    {
        self.settings.bpm
    }

    /// Takes new settings. Switching off cuts the click that is sounding.
    pub fn set_settings(&mut self, new: MetronomeSettings<S>)
        ensures
            *final(self) == (Metronome {
                settings: new,
                voice: if old(self).settings.enabled && !new.enabled {
                    None
                } else {
                    old(self).voice
                },
                ..*old(self)
            }),
    {
        let was_enabled: bool = self.settings.enabled;
        self.settings = new;
        if was_enabled && !new.enabled {
            self.voice = None;
        }
    }

    /// Puts beat 0 on source frame `anchor`.
    pub fn set_anchor(&mut self, anchor: u64)
        ensures
            *final(self) == (Metronome { anchor_frame: anchor, ..*old(self) }),
    {
        self.anchor_frame = anchor;
    }

    /// Cuts the click that is sounding.
    pub fn reset_voice(&mut self)
        ensures
            *final(self) == (Metronome { voice: None, ..*old(self) }),
    {
        self.voice = None;
    }
}

/// The whole-number part of a positive single-precision number, which is that
/// part times two to the power of `single_exponent`.
pub open spec fn single_mantissa(bits: u32) -> int {
    if bits < 0x80_0000 {
        bits as int
    } else {
        0x80_0000 + bits % 0x80_0000
    }
}

/// The power of two that goes with `single_mantissa`.
pub open spec fn single_exponent(bits: u32) -> int {
    if bits < 0x80_0000 {
        -149
    } else {
        bits / 0x80_0000 - 150
    }
}

/// The frames of one beat, rounded down: a minute's frames divided by the
/// beats per minute, which are given by their single-precision bits.
pub open spec fn beat_length(sample_rate: u32, bpm_bits: u32) -> int {
    let m = single_mantissa(bpm_bits);
    let e = single_exponent(bpm_bits);
    if e <= 0 {
        (sample_rate * 60 * pow2((-e) as nat)) / m
    } else {
        (sample_rate * 60) / (m * pow2(e as nat))
    }
}

/// The single-precision bits of the slowest tempo.
pub const MIN_BPM_BITS: u32 = 0x41A0_0000;

/// The single-precision bits of infinity.
pub const INFINITE_BITS: u32 = 0x7F80_0000;

/// The frames between two beats, given the tempo by its single-precision
/// bits: none for a tempo below the slowest or without an end.
pub fn frames_per_beat(sample_rate: u32, bpm_bits: u32) -> (r: u64)
    ensures
        r == if MIN_BPM_BITS <= bpm_bits < INFINITE_BITS {
            beat_length(sample_rate, bpm_bits)
        } else {
            0
        },
{
    if bpm_bits < MIN_BPM_BITS || bpm_bits >= INFINITE_BITS {
        return 0;
    }
    let mantissa: u64 = 0x80_0000 + (bpm_bits % 0x80_0000) as u64;
    let field: u32 = bpm_bits / 0x80_0000;
    let minute: u64 = sample_rate as u64 * 60;
    let mut scale: u64 = 1;
    let mut k: u32 = 0;
    proof {
        lemma2_to64();
    }
    if field <= 150 {
        let shift: u32 = 150 - field;
        while k < shift
            invariant
                k <= shift <= 19,
                scale == pow2(k as nat),
                scale <= pow2(19),
                pow2(19) == 0x8_0000,
            decreases shift - k,
        {
            proof {
                lemma_pow2_unfold((k + 1) as nat);
                if k + 1 < 19 {
                    lemma_pow2_strictly_increases((k + 1) as nat, 19);
                }
            }
            scale = scale * 2;
            k = k + 1;
        }
        proof {
            assert(minute * scale <= 0x40_0000_0000 * 0x8_0000) by (nonlinear_arith)
                requires
                    0 <= minute <= 0x40_0000_0000,
                    0 <= scale <= 0x8_0000,
            ;
        }
        minute * scale / mantissa
    } else {
        let shift: u32 = field - 150;
        if shift >= 20 {
            proof {
                if shift > 20 {
                    lemma_pow2_strictly_increases(20, shift as nat);
                }
                assert(mantissa * pow2(shift as nat) > minute) by (nonlinear_arith)
                    requires
                        mantissa >= 0x80_0000,
                        pow2(shift as nat) >= 0x10_0000,
                        minute <= 0xFFFF_FFFF * 60,
                ;
                vstd::arithmetic::div_mod::lemma_basic_div(
                    minute as int,
                    mantissa * pow2(shift as nat),
                );
            }
            return 0;
        }
        while k < shift
            invariant
                k <= shift < 20,
                scale == pow2(k as nat),
                scale <= pow2(20),
                pow2(20) == 0x10_0000,
            decreases shift - k,
        {
            proof {
                lemma_pow2_unfold((k + 1) as nat);
                lemma_pow2_strictly_increases((k + 1) as nat, 20);
            }
            scale = scale * 2;
            k = k + 1;
        }
        proof {
            lemma_pow2_pos(shift as nat);
            assert(0 < mantissa * scale <= 0x100_0000 * 0x10_0000) by (nonlinear_arith)
                requires
                    0x80_0000 <= mantissa <= 0x100_0000,
                    0 < scale <= 0x10_0000,
            ;
        }
        minute / (mantissa * scale)
    }
}

/// Every beat whose source frame lies in a segment is heard in it: its click
/// starts at the output frame that answers to the beat, unless the next beat
/// falls on the same output frame and takes its place.
pub proof fn every_beat_is_heard<S: Sample>(
    m: Metronome<S>,
    frames_per_beat: u64,
    seg: Segment,
    k: int,
)
    requires
        frames_per_beat > 0,
        seg.out_frames > 0,
        0 <= k,
        seg.source_start <= beat_frame(m.anchor_frame, frames_per_beat, k) < segment_end(seg),
        beat_frame(m.anchor_frame, frames_per_beat, k + 1) >= segment_end(seg) || onset(
            seg,
            beat_frame(m.anchor_frame, frames_per_beat, k + 1),
        ) > onset(seg, beat_frame(m.anchor_frame, frames_per_beat, k)),
    ensures
        ({
            let f = onset(seg, beat_frame(m.anchor_frame, frames_per_beat, k));
            &&& 0 <= f < seg.out_frames
            &&& m.voice_at(frames_per_beat, seg, f) == Some((m.accented(k), 0int))
        }),
{
    let anchor = m.anchor_frame;
    let beat = beat_frame(anchor, frames_per_beat, k);
    let next = beat_frame(anchor, frames_per_beat, k + 1);
    let f = onset(seg, beat);
    share_bounded(beat - seg.source_start, seg.source_consumed as int, seg.out_frames as int);
    heard_iff(seg, beat, f);
    beats_apart(anchor, frames_per_beat, k);
    beats_apart(anchor, frames_per_beat, k + 1);
    if next < segment_end(seg) {
        heard_iff(seg, next, f);
    }
    let first = first_in(anchor, frames_per_beat, seg, k);
    latest_is(anchor, frames_per_beat, seg, first, k + 1, f);
}

/// The first beat of a segment, given one that is in it.
proof fn first_in(anchor: u64, frames_per_beat: u64, seg: Segment, k: int) -> (first: int)
    requires
        frames_per_beat > 0,
        0 <= k,
        seg.source_start <= beat_frame(anchor, frames_per_beat, k),
    ensures
        0 <= first <= k,
        first > 0 ==> beat_frame(anchor, frames_per_beat, first - 1) < seg.source_start,
    decreases k,
{
    if k > 0 && beat_frame(anchor, frames_per_beat, k - 1) >= seg.source_start {
        first_in(anchor, frames_per_beat, seg, k - 1)
    } else {
        k
    }
}

/// Where measures are accented, the beat on the anchor opens one, and so does
/// every beat a whole number of measures after it, and no other.
pub proof fn measures_start_at_the_anchor<S: Sample>(m: Metronome<S>, k: int)
    requires
        m.settings.accent,
        m.settings.beats_per_measure > 0,
        0 <= k,
    ensures
        m.accented(0),
        m.accented(k) <==> k % (m.settings.beats_per_measure as int) == 0,
        m.accented(k + m.settings.beats_per_measure) == m.accented(k),
{
    let n = m.settings.beats_per_measure as int;
    vstd::arithmetic::div_mod::lemma_mod_add_multiples_vanish(k, n);
    vstd::arithmetic::div_mod::lemma_small_mod(0, n as nat);
}

impl<S: Sample> Metronome<S> {
    /// What is added to every sample of output frame `f` of a segment, if
    /// anything.
    pub open spec fn addend(self, frames_per_beat: u64, amp: S, seg: Segment, f: int) -> Option<S> {
        if f >= seg.out_frames {
            None
        } else {
            match self.live(self.voice_at(frames_per_beat, seg, f)) {
                Some((accent, pos)) => Some(self.click(accent)[pos].mul_spec(amp)),
                None => None,
            }
        }
    }
}

/// Clicks are only added: what a segment adds to a sample does not depend on
/// the output, and is the same on each channel of a frame. Where the clicks
/// keep to full scale, no addend is larger than the gain. Nothing is added
/// past the last whole frame, and a metronome that does not click changes
/// neither output.
pub proof fn clicks_are_only_added<S: Sample>(
    m: Metronome<S>,
    x: Seq<S>,
    y: Seq<S>,
    channels: usize,
    source_start: u64,
    source_consumed: u64,
    frames_per_beat: u64,
    amp: S,
    i: int,
    j: int,
)
    requires
        x.len() == y.len(),
        x.len() <= usize::MAX,
        channels > 0,
        0 <= i < x.len(),
        0 <= j < x.len(),
        i / channels as int == j / channels as int,
    ensures
        ({
            let seg = Segment {
                source_start,
                source_consumed,
                out_frames: (x.len() / channels as nat) as usize,
            };
            let f = i / channels as int;
            let added = m.addend(frames_per_beat, amp, seg, f);
            let (after_x, mixed_x) = m.after_segment(
                x,
                channels,
                source_start,
                source_consumed,
                frames_per_beat,
                amp,
            );
            let (after_y, mixed_y) = m.after_segment(
                y,
                channels,
                source_start,
                source_consumed,
                frames_per_beat,
                amp,
            );
            &&& after_x == after_y
            &&& m.wf() ==> after_x.wf()
            &&& f >= x.len() as int / channels as int ==> added is None
            &&& if m.clicking(channels, frames_per_beat, seg) {
                match added {
                    Some(s) => {
                        &&& mixed_x[i] == x[i].add_spec(s)
                        &&& mixed_y[j] == y[j].add_spec(s)
                        &&& real_like::<S>() && m.wf() && finite(amp) && le(num(0), amp) ==> le(
                            num::<S>(0).sub_spec(amp),
                            s,
                        ) && le(s, amp)
                    },
                    None => mixed_x[i] == x[i] && mixed_y[j] == y[j],
                }
            } else {
                mixed_x == x && mixed_y == y
            }
        }),
{
    let seg = Segment {
        source_start,
        source_consumed,
        out_frames: (x.len() / channels as nat) as usize,
    };
    let f = i / channels as int;
    vstd::arithmetic::div_mod::lemma_div_nonincreasing(x.len() as int, channels as int);
    vstd::arithmetic::div_mod::lemma_div_pos_is_pos(i, channels as int);
    if m.clicking(channels, frames_per_beat, seg) && m.addend(
        frames_per_beat,
        amp,
        seg,
        f,
    ) is Some && real_like::<S>() && m.wf() && finite(amp) && le(num(0), amp) {
        let (accent, pos) = m.live(m.voice_at(frames_per_beat, seg, f))->0;
        sounding_is_in_its_click(m, frames_per_beat, seg, f);
        let c = m.click(accent)[pos];
        assert(finite(num::<S>(-1i16)) && finite(num::<S>(1)));
        assert(finite(c));
        assert(le(num::<S>(-1i16).mul_spec(amp), c.mul_spec(amp)));
        assert(le(c.mul_spec(amp), num::<S>(1).mul_spec(amp)));
        assert(same(num::<S>(1).mul_spec(amp), amp));
        assert(same(num::<S>(-1i16).mul_spec(amp), num::<S>(0).sub_spec(amp)));
    }
}

/// A click that sounds has begun and is not over.
proof fn sounding_is_in_its_click<S: Sample>(
    m: Metronome<S>,
    frames_per_beat: u64,
    seg: Segment,
    f: int,
)
    requires
        frames_per_beat > 0,
        seg.out_frames > 0,
        seg.source_consumed > 0,
        0 <= f,
    ensures
        m.live(m.voice_at(frames_per_beat, seg, f)) matches Some((accent, pos)) ==> 0 <= pos
            < m.click(accent).len(),
{
    let anchor = m.anchor_frame;
    if let Some(k) = latest_beat(anchor, frames_per_beat, seg, f) {
        let until = heard_until(seg, f);
        let p = frames_per_beat as int;
        lemma_fundamental_div_mod(until - anchor, p);
        lemma_mul_is_commutative(k, p);
        heard_iff(seg, beat_frame(anchor, frames_per_beat, k), f);
    }
}

/// A click: a tone that dies away. `tone` is the tone at each sample, and
/// `decay` what is left of it by then.
pub fn render_click<S: Sample>(tone: &Vec<S>, decay: &Vec<S>) -> (r: Vec<S>)
    requires
        total_arithmetic::<S>(),
        tone@.len() == decay@.len(),
    ensures
        r@ == Seq::new(tone@.len(), |i: int| tone@[i].mul_spec(decay@[i])),
{
    let n: usize = tone.len();
    let mut r: Vec<S> = Vec::new();
    while r.len() < n
        invariant
            total_arithmetic::<S>(),
            n == tone@.len(),
            n == decay@.len(),
            r@.len() <= n,
            r@ =~= Seq::new(r@.len(), |i: int| tone@[i].mul_spec(decay@[i])),
        decreases n - r@.len(),
    {
        let i: usize = r.len();
        r.push(tone[i] * decay[i]);
    }
    r
}

/// A tone between minus one and one that dies away from one towards zero makes
/// a click that keeps to full scale.
pub proof fn clicks_keep_to_full_scale<S: Sample>(tone: Seq<S>, decay: Seq<S>)
    requires
        real_like::<S>(),
        tone.len() == decay.len(),
        within_full_scale(tone),
        forall|i: int|
            0 <= i < decay.len() ==> le(num(0), #[trigger] decay[i]) && le(decay[i], num(1)),
    ensures
        within_full_scale(Seq::new(tone.len(), |i: int| tone[i].mul_spec(decay[i]))),
{
    let zero = num::<S>(0);
    let one = num::<S>(1);
    let minus = num::<S>(-1i16);
    assert(finite(zero) && finite(one) && finite(minus));
    assert forall|i: int| 0 <= i < tone.len() implies le(
        minus,
        #[trigger] tone[i].mul_spec(decay[i]),
    ) && le(tone[i].mul_spec(decay[i]), one) by {
        let t = tone[i];
        let d = decay[i];
        assert(finite(t) && finite(d));
        assert(le(minus.mul_spec(d), t.mul_spec(d)));
        assert(le(t.mul_spec(d), one.mul_spec(d)));
        assert(same(one.mul_spec(d), d));
        assert(same(minus.mul_spec(d), zero.sub_spec(d)));
        assert(le(zero.sub_spec(one), zero.sub_spec(d)));
        assert(same(zero.sub_spec(one), minus));
    }
}

} // verus!
