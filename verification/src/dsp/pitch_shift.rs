//! Shifting the pitch: what comes out of a time stretcher goes through a
//! resampler, so that the two changes of length cancel and the pitch remains
//! changed. The resampler itself is the caller's.

use vstd::prelude::*;
use vstd::std_specs::ops::{DivSpec, MulSpec};

use crate::dsp::phase_vocoder::{PhaseVocoder, VocoderModel, NUM_BINS};
use crate::dsp::planes::{in_step, interleaved, joined, least, shaped, without_front, Planes};
use crate::dsp::stretch::{
    expected_frames, expected_output, overlap_gain, stretch_at, StretchRamp,
    ADAPTER_MAX_OUTPUT_FRAMES_PER_CHUNK, ENGINE_CHUNK_FRAMES, FRAME_SIZE, OVERLAP, SYNTHESIS_HOP,
};
use crate::dsp::wsola::{chunk_room, frames_allowed, Wsola, WsolaModel};
use crate::sample::{
    ceiling, ceiling_within, clamp_to, clamped, num, total_arithmetic, whole, Sample,
};

pub mod laws;

verus! {

/// The frames that the resampler takes in at once.
pub const RESAMPLE_CHUNK_FRAMES: usize = 1024;

/// The most frames of stretched output that one chunk asks for.
pub const MAX_STRETCHED_FRAMES: usize = 16384;

/// The queues on both sides of the resampler, and what the user set.
pub struct PitchShift<S> {
    pub channels: usize,
    /// Stretched output that waits for the resampler.
    pub drain: Planes<S>,
    /// Resampled output that waits to be played.
    pub out_queue: Planes<S>,
    pub speed: S,
    pub pitch_semitones: S,
}

/// The stretch for a speed and a pitch, which is given by its ratio of
/// frequencies.
pub open spec fn stretch_for<S: Sample>(pitch_factor: S, speed: S) -> S {
    pitch_factor.div_spec(speed)
}

/// The frames of stretched output that one chunk is to give at a stretch.
pub open spec fn stretched_frames<S: Sample>(stretch: S) -> int {
    ceiling(num::<S>(1024).mul_spec(stretch), 0, MAX_STRETCHED_FRAMES as int)
}

/// The frames of stretched output that one chunk is to give at a stretch.
pub fn stretch_target<S: Sample>(stretch: S) -> (r: usize)
    requires
        total_arithmetic::<S>(),
    ensures
        r == stretched_frames(stretch),
{
    ceiling_within(whole::<S>(1024) * stretch, 0, 16384) as usize
}

impl<S: Sample> PitchShift<S> {
    /// Both queues have the right number of channels, all equally long.
    pub open spec fn wf(self) -> bool {
        &&& in_step(self.drain@)
        &&& in_step(self.out_queue@)
        &&& self.drain@.len() == self.channels
        &&& self.out_queue@.len() == self.channels
    }

    /// The original speed and pitch, and empty queues.
    pub fn new(channels: usize) -> (r: PitchShift<S>)
        requires
            total_arithmetic::<S>(),
            channels > 0,
        ensures
            r.wf(),
            r.channels == channels,
            shaped(r.drain@, channels as nat, 0),
            shaped(r.out_queue@, channels as nat, 0),
            r.speed == num::<S>(1),
            r.pitch_semitones == num::<S>(0),
    {
        PitchShift {
            channels,
            drain: Planes::zeros(channels, 0),
            out_queue: Planes::zeros(channels, 0),
            speed: whole(1),
            pitch_semitones: whole(0),
        }
    }

    /// Takes a speed, held between one quarter and two.
    pub fn set_speed(&mut self, speed: S)
        requires
            total_arithmetic::<S>(),
        ensures
            *final(self) == (PitchShift {
                speed: clamped(speed, num::<S>(1).div_spec(num(4)), num(2)),
                ..*old(self)
            }),
    {
        self.speed = clamp_to(speed, whole::<S>(1) / whole(4), whole(2));
    }

    /// Takes a pitch, held to an octave up or down.
    pub fn set_pitch_semitones(&mut self, semitones: S)
        requires
            total_arithmetic::<S>(),
        ensures
            *final(self) == (PitchShift {
                pitch_semitones: clamped(semitones, num(-12i16), num(12)),
                ..*old(self)
            }),
    {
        self.pitch_semitones = clamp_to(semitones, whole(-12), whole(12));
    }

    /// The stretch that goes with the speed and a pitch.
    pub fn stretch(&self, pitch_factor: S) -> (r: S)
        requires
            total_arithmetic::<S>(),
        ensures
            r == stretch_for(pitch_factor, self.speed),
    {
        pitch_factor / self.speed
    }

    /// Whether the resampler is to run: there is enough for it, and not
    /// enough output yet.
    pub open spec fn hungry(self, max_out: nat) -> bool {
        &&& self.drain@[0].len() >= RESAMPLE_CHUNK_FRAMES
        &&& self.out_queue@[0].len() < max_out
    }

    /// Whether the resampler is to run.
    pub fn wants_resampling(&self, max_out: usize) -> (r: bool)
        requires
            self.wf(),
        ensures
            r == self.hungry(max_out as nat),
    {
        self.drain.frames() >= RESAMPLE_CHUNK_FRAMES && self.out_queue.frames() < max_out
    }

    /// The resampler has taken `used` frames and made `made` frames of them,
    /// which are at the front of `resampled`.
    pub fn accept(&mut self, used: usize, resampled: &Planes<S>, made: usize)
        requires
            old(self).wf(),
            used <= old(self).drain@[0].len(),
            resampled@.len() == old(self).channels,
            forall|c: int| 0 <= c < resampled@.len() ==> made <= (#[trigger] resampled@[c]).len(),
        ensures
            final(self).wf(),
            final(self).channels == old(self).channels,
            final(self).speed == old(self).speed,
            final(self).pitch_semitones == old(self).pitch_semitones,
            final(self).drain@ == without_front(old(self).drain@, used as int),
            final(self).out_queue@ == joined(old(self).out_queue@, resampled@, made as int),
    {
        self.drain.drop_front(used);
        self.out_queue.join(resampled, made);
    }

    /// Hands out up to `max_out` frames, interleaved. The result is how many.
    pub fn finish(&mut self, output: &mut [S], max_out: usize) -> (r: usize)
        requires
            old(self).wf(),
            max_out * old(self).channels <= old(output)@.len(),
        ensures
            final(self).wf(),
            final(self).channels == old(self).channels,
            final(self).speed == old(self).speed,
            final(self).pitch_semitones == old(self).pitch_semitones,
            final(self).drain@ == old(self).drain@,
            r == least(old(self).out_queue@[0].len(), max_out as nat),
            r * old(self).channels <= old(output)@.len(),
            final(output)@.len() == old(output)@.len(),
            final(output)@.take(r * old(self).channels) == interleaved(
                old(self).out_queue@,
                r as nat,
            ),
            final(output)@.skip(r * old(self).channels) == old(output)@.skip(
                r * old(self).channels,
            ),
            final(self).out_queue@ == without_front(old(self).out_queue@, r as int),
    {
        let queued: usize = self.out_queue.frames();
        let n: usize = if queued <= max_out {
            queued
        } else {
            max_out
        };
        proof {
            vstd::arithmetic::mul::lemma_mul_inequality(
                n as int,
                max_out as int,
                self.channels as int,
            );
        }
        self.out_queue.write_interleaved(output, n);
        self.out_queue.drop_front(n);
        n
    }
}

/// The frames that a shifted chunk is expected to give: those of the larger
/// stretch, resampled.
pub open spec fn shifted_frames<S: Sample>(stretch: S, pitch_factor: S) -> int {
    expected_frames(stretch.mul_spec(num::<S>(1).div_spec(pitch_factor)))
}

/// The frames that a shifted chunk is expected to give.
pub fn shifted_output<S: Sample>(stretch: S, pitch_factor: S) -> (r: usize)
    requires
        total_arithmetic::<S>(),
    ensures
        r == shifted_frames(stretch, pitch_factor),
        1 <= r <= ADAPTER_MAX_OUTPUT_FRAMES_PER_CHUNK,
{
    expected_output(stretch * (whole::<S>(1) / pitch_factor))
}

/// Speed and pitch in the time domain, up to the resampler and behind it.
pub struct WsolaPitchShift<S> {
    pub wsola: Wsola<S>,
    pub shift: PitchShift<S>,
}

impl<S: Sample> WsolaPitchShift<S> {
    /// Both parts are in order and made for the same channels.
    pub open spec fn wf(self) -> bool {
        &&& self.wsola.wf()
        &&& self.shift.wf()
        &&& self.wsola.channels == self.shift.channels
    }

    /// The original speed and pitch.
    pub fn new(channels: usize, window: &Vec<S>) -> (r: WsolaPitchShift<S>)
        requires
            total_arithmetic::<S>(),
            channels > 0,
            window@.len() == FRAME_SIZE,
        ensures
            r.wf(),
            r.shift.channels == channels,
            shaped(r.wsola@.input, channels as nat, 0),
            shaped(r.wsola@.output, channels as nat, 0),
            shaped(r.shift.drain@, channels as nat, 0),
            shaped(r.shift.out_queue@, channels as nat, 0),
            forall|c: int, i: int|
                0 <= c < channels && 0 <= i < OVERLAP ==> #[trigger] r.wsola@.tail[c][i] == num::<
                    S,
                >(0),
            r.wsola@.pos == 0,
            r.wsola@.reference is None,
            r.wsola@.window == window@.map_values(|w: S| w.div_spec(overlap_gain(window@))),
            r.wsola@.ramp == (StretchRamp {
                target: num::<S>(1),
                stretch: num::<S>(1),
                analysis_hop: SYNTHESIS_HOP,
            }),
            r.shift.speed == num::<S>(1),
            r.shift.pitch_semitones == num::<S>(0),
    {
        WsolaPitchShift { wsola: Wsola::new(channels, window), shift: PitchShift::new(channels) }
    }

    /// Sets the stretch from the speed and a pitch.
    pub fn recompute(&mut self, pitch_factor: S)
        requires
            total_arithmetic::<S>(),
            old(self).wf(),
        ensures
            final(self).wf(),
            final(self).shift == old(self).shift,
            final(self).wsola@ == (WsolaModel {
                ramp: old(self).wsola@.ramp.aimed(stretch_for(pitch_factor, old(self).shift.speed)),
                ..old(self).wsola@
            }),
    {
        let stretch: S = self.shift.stretch(pitch_factor);
        self.wsola.set_stretch(stretch);
    }

    /// The frames that the next chunk is expected to give.
    pub fn expected_output_frames_per_chunk(&self, pitch_factor: S) -> (r: usize)
        requires
            total_arithmetic::<S>(),
        ensures
            r == shifted_frames(self.wsola@.ramp.effective(), pitch_factor),
            1 <= r <= ADAPTER_MAX_OUTPUT_FRAMES_PER_CHUNK,
    {
        shifted_output(self.wsola.effective_stretch(), pitch_factor)
    }

    /// Takes in a chunk, stretches it and queues the result for the
    /// resampler. The result is how many frames may be given out, or none
    /// where the chunk cannot be run.
    pub fn begin(&mut self, input: &[S], room: usize, channels: usize) -> (r: Option<usize>)
        requires
            total_arithmetic::<S>(),
            old(self).wf(),
        ensures
            final(self).wf(),
            final(self).shift.channels == old(self).shift.channels,
            ({
                let max_out = chunk_room(
                    old(self).shift.channels,
                    input@.len(),
                    room as nat,
                    channels,
                );
                let stretched = old(self).wsola@.fed(
                    input@,
                    ENGINE_CHUNK_FRAMES as nat,
                ).synthesized(stretched_frames(old(self).wsola@.ramp.target));
                let n = stretched.output[0].len();
                if max_out == 0 {
                    &&& r is None
                    &&& final(self).wsola@ == old(self).wsola@
                    &&& final(self).shift == old(self).shift
                } else {
                    &&& r == Some(max_out as usize)
                    &&& max_out * channels <= room
                    &&& final(self).wsola@ == stretched.drained(n)
                    &&& final(self).shift.drain@ == joined(
                        old(self).shift.drain@,
                        stretched.output,
                        n as int,
                    )
                    &&& final(self).shift.out_queue == old(self).shift.out_queue
                    &&& final(self).shift.speed == old(self).shift.speed
                    &&& final(self).shift.pitch_semitones == old(self).shift.pitch_semitones
                }
            }),
    {
        let max_out: usize = frames_allowed(self.shift.channels, input.len(), room, channels);
        if max_out == 0 {
            return None;
        }
        self.wsola.ingest(input, ENGINE_CHUNK_FRAMES);
        let target: usize = stretch_target(self.wsola.target_stretch());
        self.wsola.synthesize_up_to(target);
        let available: usize = self.wsola.output_available();
        self.wsola.drain_output_planar(&mut self.shift.drain, available);
        Some(max_out)
    }
}

/// What the speed-only vocoder is to do with a chunk that it has taken in.
#[derive(Clone, Copy, Debug, PartialEq, Eq, Structural)]
pub struct ChunkGoal {
    /// The frames that may be given out.
    pub max_out: usize,
    /// The stretched frames to make first.
    pub target: usize,
}

/// A vocoder that has heard nothing yet, at no stretch.
pub open spec fn fresh_vocoder<S: Sample>(
    v: PhaseVocoder<S>,
    channels: usize,
    window: Vec<S>,
) -> bool {
    &&& v.is_fresh(channels)
    &&& v.window == window
    &&& v.ramp == (StretchRamp {
        target: num::<S>(1),
        stretch: num::<S>(1),
        analysis_hop: SYNTHESIS_HOP,
    })
    &&& forall|k: int|
        0 <= k < NUM_BINS ==> #[trigger] v.phases.onsets.prev_mag_mono@[k] == num::<S>(0)
    &&& v.phases.onsets.flux_avg == num::<S>(0)
    &&& !v.phases.onsets.was_transient
}

/// Changes the speed and keeps the pitch, on spectra.
pub struct PhaseVocoderSpeed<S> {
    pub inner: PhaseVocoder<S>,
}

impl<S: Sample> PhaseVocoderSpeed<S> {
    /// A processor at the original speed. `window` is that of
    /// `PhaseVocoder::new`.
    pub fn new(channels: usize, window: Vec<S>) -> (r: PhaseVocoderSpeed<S>)
        requires
            total_arithmetic::<S>(),
            channels > 0,
            window@.len() == FRAME_SIZE,
        ensures
            r.inner.wf(),
            fresh_vocoder(r.inner, channels, window),
    {
        PhaseVocoderSpeed { inner: PhaseVocoder::new(channels, window) }
    }

    /// Takes a speed, held between one quarter and four.
    pub fn set_speed(&mut self, speed: S)
        requires
            total_arithmetic::<S>(),
            old(self).inner.wf(),
        ensures
            final(self).inner.wf(),
            final(self).inner.phases == old(self).inner.phases,
            final(self).inner@ == (VocoderModel {
                ramp: old(self).inner@.ramp.aimed(stretch_at(speed)),
                ..old(self).inner@
            }),
    {
        let s: S = clamp_to(speed, whole::<S>(1) / whole(4), whole(4));
        self.inner.set_stretch(whole::<S>(1) / s);
    }

    /// The frames that the next chunk is expected to give.
    pub fn expected_output_frames_per_chunk(&self) -> (r: usize)
        requires
            total_arithmetic::<S>(),
        ensures
            r == expected_frames(self.inner@.ramp.effective()),
            1 <= r <= ADAPTER_MAX_OUTPUT_FRAMES_PER_CHUNK,
    {
        expected_output(self.inner.effective_stretch())
    }

    /// Takes in a chunk. The result is what to make of it, or none where the
    /// chunk cannot be run.
    pub fn begin(&mut self, input: &[S], room: usize, channels: usize) -> (r: Option<ChunkGoal>)
        requires
            total_arithmetic::<S>(),
            old(self).inner.wf(),
        ensures
            final(self).inner.wf(),
            final(self).inner.channels == old(self).inner.channels,
            final(self).inner.phases == old(self).inner.phases,
            ({
                let max_out = chunk_room(
                    old(self).inner.channels,
                    input@.len(),
                    room as nat,
                    channels,
                );
                if max_out == 0 {
                    r is None && final(self).inner@ == old(self).inner@
                } else {
                    &&& r == Some(
                        ChunkGoal {
                            max_out: max_out as usize,
                            target: least(
                                expected_frames(old(self).inner@.ramp.effective()) as nat,
                                max_out,
                            ) as usize,
                        },
                    )
                    &&& max_out * channels <= room
                    &&& final(self).inner@ == old(self).inner@.fed(
                        input@,
                        ENGINE_CHUNK_FRAMES as nat,
                    )
                }
            }),
    {
        let max_out: usize = frames_allowed(self.inner.channels, input.len(), room, channels);
        if max_out == 0 {
            return None;
        }
        let expected: usize = self.expected_output_frames_per_chunk();
        self.inner.ingest(input, ENGINE_CHUNK_FRAMES);
        let target: usize = if expected <= max_out {
            expected
        } else {
            max_out
        };
        Some(ChunkGoal { max_out, target })
    }
}

/// Speed and pitch on spectra, up to the resampler and behind it.
pub struct PhaseVocoderPitchShift<S> {
    pub vocoder: PhaseVocoder<S>,
    pub shift: PitchShift<S>,
}

impl<S: Sample> PhaseVocoderPitchShift<S> {
    /// Both parts are in order and made for the same channels.
    pub open spec fn wf(self) -> bool {
        &&& self.vocoder.wf()
        &&& self.shift.wf()
        &&& self.vocoder.channels == self.shift.channels
    }

    /// The original speed and pitch. `window` is that of `PhaseVocoder::new`.
    pub fn new(channels: usize, window: Vec<S>) -> (r: PhaseVocoderPitchShift<S>)
        requires
            total_arithmetic::<S>(),
            channels > 0,
            window@.len() == FRAME_SIZE,
        ensures
            r.wf(),
            fresh_vocoder(r.vocoder, channels, window),
            r.shift.channels == channels,
            shaped(r.shift.drain@, channels as nat, 0),
            shaped(r.shift.out_queue@, channels as nat, 0),
            r.shift.speed == num::<S>(1),
            r.shift.pitch_semitones == num::<S>(0),
    {
        PhaseVocoderPitchShift {
            vocoder: PhaseVocoder::new(channels, window),
            shift: PitchShift::new(channels),
        }
    }

    /// Sets the stretch from the speed and a pitch.
    pub fn recompute(&mut self, pitch_factor: S)
        requires
            total_arithmetic::<S>(),
            old(self).wf(),
        ensures
            final(self).wf(),
            final(self).shift == old(self).shift,
            final(self).vocoder.phases == old(self).vocoder.phases,
            final(self).vocoder@ == (VocoderModel {
                ramp: old(self).vocoder@.ramp.aimed(
                    stretch_for(pitch_factor, old(self).shift.speed),
                ),
                ..old(self).vocoder@
            }),
    {
        let stretch: S = self.shift.stretch(pitch_factor);
        self.vocoder.set_stretch(stretch);
    }

    /// The frames that the next chunk is expected to give.
    pub fn expected_output_frames_per_chunk(&self, pitch_factor: S) -> (r: usize)
        requires
            total_arithmetic::<S>(),
        ensures
            r == shifted_frames(self.vocoder@.ramp.effective(), pitch_factor),
            1 <= r <= ADAPTER_MAX_OUTPUT_FRAMES_PER_CHUNK,
    {
        shifted_output(self.vocoder.effective_stretch(), pitch_factor)
    }

    /// Takes in a chunk. The result is what to make of it, or none where the
    /// chunk cannot be run.
    pub fn begin(&mut self, input: &[S], room: usize, channels: usize) -> (r: Option<ChunkGoal>)
        requires
            total_arithmetic::<S>(),
            old(self).wf(),
        ensures
            final(self).wf(),
            final(self).shift == old(self).shift,
            final(self).vocoder.phases == old(self).vocoder.phases,
            ({
                let max_out = chunk_room(
                    old(self).shift.channels,
                    input@.len(),
                    room as nat,
                    channels,
                );
                if max_out == 0 {
                    r is None && final(self).vocoder@ == old(self).vocoder@
                } else {
                    &&& r == Some(
                        ChunkGoal {
                            max_out: max_out as usize,
                            target: stretched_frames(old(self).vocoder@.ramp.target) as usize,
                        },
                    )
                    &&& max_out * channels <= room
                    &&& final(self).vocoder@ == old(self).vocoder@.fed(
                        input@,
                        ENGINE_CHUNK_FRAMES as nat,
                    )
                }
            }),
    {
        let max_out: usize = frames_allowed(self.shift.channels, input.len(), room, channels);
        if max_out == 0 {
            return None;
        }
        self.vocoder.ingest(input, ENGINE_CHUNK_FRAMES);
        let target: usize = stretch_target(self.vocoder.target_stretch());
        Some(ChunkGoal { max_out, target })
    }

    /// Queues all stretched output for the resampler.
    pub fn queue_stretched(&mut self)
        requires
            old(self).wf(),
        ensures
            final(self).wf(),
            final(self).shift.channels == old(self).shift.channels,
            final(self).shift.speed == old(self).shift.speed,
            final(self).shift.pitch_semitones == old(self).shift.pitch_semitones,
            final(self).shift.out_queue == old(self).shift.out_queue,
            final(self).vocoder.phases == old(self).vocoder.phases,
            ({
                let n = old(self).vocoder@.output[0].len();
                &&& final(self).vocoder@ == old(self).vocoder@.drained(n)
                &&& final(self).shift.drain@ == joined(
                    old(self).shift.drain@,
                    old(self).vocoder@.output,
                    n as int,
                )
            }),
    {
        let available: usize = self.vocoder.output_available();
        self.vocoder.drain_output_planar(&mut self.shift.drain, available);
    }
}

} // verus!
