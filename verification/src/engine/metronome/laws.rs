//! Which click is heard where.

use vstd::arithmetic::power2::{lemma_pow2_pos, pow2};
use vstd::prelude::*;
use vstd::std_specs::ops::{AddSpec, MulSpec};

use crate::engine::metronome::{
    beat_frame, beat_length, every_beat_is_heard, latest_beat, onset, segment_end,
    single_exponent, single_mantissa, Metronome, Segment,
};
use crate::sample::Sample;

verus! {

/// Beats are heard in proportion: as far into the output as they lie in the
/// source, rounded down to a frame. At the speed of the track they are heard
/// where they lie.
pub proof fn beats_are_heard_in_proportion(seg: Segment, frame: int)
    requires
        0 < seg.source_consumed,
        seg.source_start <= frame,
    ensures
        ({
            let f = onset(seg, frame);
            let share = (frame - seg.source_start) * seg.out_frames as int;
            &&& f * seg.source_consumed <= share < (f + 1) * seg.source_consumed
            &&& seg.out_frames == seg.source_consumed ==> f == frame - seg.source_start
        }),
{
    let share = (frame - seg.source_start) * seg.out_frames as int;
    let c = seg.source_consumed as int;
    let f = onset(seg, frame);
    vstd::arithmetic::div_mod::lemma_fundamental_div_mod(share, c);
    vstd::arithmetic::div_mod::lemma_mod_bound(share, c);
    vstd::arithmetic::mul::lemma_mul_is_commutative(f, c);
    vstd::arithmetic::mul::lemma_mul_is_distributive_add_other_way(c, f, 1);
    if seg.out_frames == seg.source_consumed {
        vstd::arithmetic::div_mod::lemma_div_multiples_vanish(frame - seg.source_start, c);
        vstd::arithmetic::mul::lemma_mul_is_commutative(frame - seg.source_start, c);
    }
}

/// A beat is heard as its own click, from the first sample of that on: the
/// accented one where it opens a measure, and the plain one elsewhere.
pub proof fn beats_start_their_own_click<S: Sample>(
    m: Metronome<S>,
    out: Seq<S>,
    channels: usize,
    source_start: u64,
    source_consumed: u64,
    frames_per_beat: u64,
    amp: S,
    k: int,
    c: int,
)
    requires
        channels > 0,
        out.len() <= usize::MAX,
        0 <= c < channels,
        0 <= k,
        ({
            let seg = Segment {
                source_start,
                source_consumed,
                out_frames: (out.len() / channels as nat) as usize,
            };
            let beat = beat_frame(m.anchor_frame, frames_per_beat, k);
            let next = beat_frame(m.anchor_frame, frames_per_beat, k + 1);
            &&& m.clicking(channels, frames_per_beat, seg)
            &&& source_start <= beat < segment_end(seg)
            &&& next >= segment_end(seg) || onset(seg, next) > onset(seg, beat)
        }),
        m.click_accent@.len() > 0,
        m.click_normal@.len() > 0,
    ensures
        ({
            let seg = Segment {
                source_start,
                source_consumed,
                out_frames: (out.len() / channels as nat) as usize,
            };
            let f = onset(seg, beat_frame(m.anchor_frame, frames_per_beat, k));
            let i = f * channels + c;
            let per = m.settings.beats_per_measure as int;
            let first = if m.settings.accent && per > 0 && k % per == 0 {
                m.click_accent@[0]
            } else {
                m.click_normal@[0]
            };
            &&& 0 <= i < out.len()
            &&& m.after_segment(
                out,
                channels,
                source_start,
                source_consumed,
                frames_per_beat,
                amp,
            ).1[i] == out[i].add_spec(first.mul_spec(amp))
        }),
{
    let ch = channels as int;
    vstd::arithmetic::div_mod::lemma_div_nonincreasing(out.len() as int, ch);
    vstd::arithmetic::div_mod::lemma_div_pos_is_pos(out.len() as int, ch);
    let seg = Segment {
        source_start,
        source_consumed,
        out_frames: (out.len() / channels as nat) as usize,
    };
    every_beat_is_heard(m, frames_per_beat, seg, k);
    let f = onset(seg, beat_frame(m.anchor_frame, frames_per_beat, k));
    crate::frames::row_of(f, ch, c);
    crate::frames::row_fits(f, out.len() as int, ch);
}

/// A click that has begun plays on, sample by sample, until the next beat.
pub proof fn clicks_play_on<S: Sample>(
    m: Metronome<S>,
    frames_per_beat: u64,
    amp: S,
    seg: Segment,
    f: int,
    accent: bool,
    pos: int,
)
    requires
        0 <= f,
        f + 1 < seg.out_frames,
        m.voice_at(frames_per_beat, seg, f) == Some((accent, pos)),
        latest_beat(m.anchor_frame, frames_per_beat, seg, f + 1) == latest_beat(
            m.anchor_frame,
            frames_per_beat,
            seg,
            f,
        ),
    ensures
        m.addend(frames_per_beat, amp, seg, f + 1) == if pos + 1 < m.click(accent).len() {
            Some(m.click(accent)[pos + 1].mul_spec(amp))
        } else {
            None::<S>
        },
{
}

/// A click that is sounding at the end of a segment goes on at the start of the
/// next one, unless a beat starts another there.
pub proof fn clicks_cross_segments<S: Sample>(
    m: Metronome<S>,
    frames_per_beat: u64,
    amp: S,
    seg: Segment,
    next: Segment,
    accent: bool,
    pos: int,
)
    requires
        0 < seg.out_frames,
        0 < next.out_frames,
        m.voice_at(frames_per_beat, seg, seg.out_frames - 1) == Some((accent, pos)),
        latest_beat(m.anchor_frame, frames_per_beat, seg, seg.out_frames as int) == latest_beat(
            m.anchor_frame,
            frames_per_beat,
            seg,
            seg.out_frames - 1,
        ),
        0 <= pos < usize::MAX,
        latest_beat(m.anchor_frame, frames_per_beat, next, 0) is None,
    ensures
        ({
            let after = m.sounding(m.voice_at(frames_per_beat, seg, seg.out_frames as int));
            after.addend(frames_per_beat, amp, next, 0) == if pos + 1 < m.click(accent).len() {
                Some(m.click(accent)[pos + 1].mul_spec(amp))
            } else {
                None::<S>
            }
        }),
{
}

/// The beats of a minute fit into it, and one more frame to each would not: the
/// tempo is its mantissa times a power of two.
pub proof fn beats_fit_the_minute(sample_rate: u32, bpm_bits: u32)
    requires
        bpm_bits > 0,
    ensures
        ({
            let n = beat_length(sample_rate, bpm_bits);
            let m = single_mantissa(bpm_bits) as int;
            let e = single_exponent(bpm_bits);
            let minute = sample_rate * 60;
            if e <= 0 {
                n * m <= minute * pow2((-e) as nat) < (n + 1) * m
            } else {
                n * (m * pow2(e as nat)) <= minute < (n + 1) * (m * pow2(e as nat))
            }
        }),
{
    let n = beat_length(sample_rate, bpm_bits);
    let m = single_mantissa(bpm_bits) as int;
    let e = single_exponent(bpm_bits);
    if e <= 0 {
        floor_of_share(sample_rate * 60 * pow2((-e) as nat), m);
    } else {
        lemma_pow2_pos(e as nat);
        vstd::arithmetic::mul::lemma_mul_strictly_positive(m, pow2(e as nat) as int);
        floor_of_share(sample_rate * 60, m * pow2(e as nat));
    }
}

proof fn floor_of_share(a: int, b: int)
    requires
        b > 0,
    ensures
        (a / b) * b <= a < (a / b + 1) * b,
{
    vstd::arithmetic::div_mod::lemma_fundamental_div_mod(a, b);
    vstd::arithmetic::div_mod::lemma_mod_bound(a, b);
    vstd::arithmetic::mul::lemma_mul_is_commutative(a / b, b);
    vstd::arithmetic::mul::lemma_mul_is_distributive_add_other_way(b, a / b, 1);
}

} // verus!
