//! Signal processing: changing speed and pitch, and colouring the sound.

use vstd::prelude::*;

use crate::sample::Sample;

pub mod eq;
pub mod passthrough;
pub mod phase_vocoder;
pub mod pitch_shift;
pub mod planes;
pub mod resample;
pub mod stretch;
pub mod wsola;

verus! {

/// Which family of processors changes speed and pitch.
#[derive(Clone, Copy, Debug, PartialEq, Eq, Structural)]
pub enum DspKind {
    Wsola,
    PhaseVocoder,
}

impl Default for DspKind {
    /// The phase vocoder is the family used until another is picked.
    fn default() -> (r: DspKind)
        ensures
            r == DspKind::PhaseVocoder,
    {
        DspKind::PhaseVocoder
    }
}

/// Which processor to build.
#[derive(Clone, Copy, Debug, PartialEq, Eq, Structural)]
pub enum DspChoice {
    /// None that changes anything.
    Passthrough,
    /// Speed and pitch.
    Full(DspKind),
    /// Speed alone.
    SpeedOnly(DspKind),
}

/// Which processor to build for so many channels: the full one of a family
/// if a resampler can be had for them, and else the one without. No channels
/// need no processor.
pub fn make_dsp(channels: usize, kind: DspKind, resampler: bool) -> (r: DspChoice)
    ensures
        r == if channels == 0 {
            DspChoice::Passthrough
        } else if resampler {
            DspChoice::Full(kind)
        } else {
            DspChoice::SpeedOnly(kind)
        },
{
    if channels == 0 {
        DspChoice::Passthrough
    } else if resampler {
        DspChoice::Full(kind)
    } else {
        DspChoice::SpeedOnly(kind)
    }
}

/// Changes speed and pitch of interleaved samples, one chunk at a time.
///
/// A caller waits until `input_frames_per_chunk` source frames are there and
/// the expected output has room, and then calls `process` once.
pub trait TimePitchProcessor<S: Sample> {
    /// The processor is in working order.
    spec fn valid(&self) -> bool;

    /// The frames that one chunk takes in.
    spec fn input_frames(&self) -> nat;

    /// The most frames that one chunk can give out.
    spec fn max_output_frames(&self) -> nat;

    /// The frames that the next chunk will give out.
    spec fn expected_output_frames(&self) -> nat;

    /// `after` is this processor once it was told `speed`.
    spec fn sped(&self, speed: S, after: &Self) -> bool;

    /// `after` is this processor once it was told a pitch.
    spec fn pitched(&self, semitones: S, after: &Self) -> bool;

    /// For a chunk of `input`, with room for `room` samples, `output` is what
    /// this processor gives out, and `after` is what it then is.
    spec fn processed(
        &self,
        input: Seq<S>,
        room: nat,
        channels: usize,
        after: &Self,
        output: Seq<S>,
    ) -> bool;

    fn set_speed(&mut self, speed: S)
        requires
            old(self).valid(),
        ensures
            final(self).valid(),
            old(self).sped(speed, final(self)),
            final(self).input_frames() == old(self).input_frames(),
            final(self).max_output_frames() == old(self).max_output_frames(),
    ;

    fn set_pitch_semitones(&mut self, semitones: S)
        requires
            old(self).valid(),
        ensures
            final(self).valid(),
            old(self).pitched(semitones, final(self)),
            final(self).input_frames() == old(self).input_frames(),
            final(self).max_output_frames() == old(self).max_output_frames(),
    ;

    fn input_frames_per_chunk(&self) -> (r: usize)
        requires
            self.valid(),
        ensures
            r == self.input_frames(),
    ;

    fn max_output_frames_per_chunk(&self) -> (r: usize)
        requires
            self.valid(),
        ensures
            r == self.max_output_frames(),
    ;

    fn expected_output_frames_per_chunk(&self) -> (r: usize)
        requires
            self.valid(),
        ensures
            r == self.expected_output_frames(),
    ;

    /// Runs one chunk. The result is how many frames were taken in and how
    /// many were written to the front of `output`.
    fn process(&mut self, input: &[S], output: &mut [S], channels: usize) -> (r: (usize, usize))
        requires
            old(self).valid(),
        ensures
            final(self).valid(),
            final(output)@.len() == old(output)@.len(),
            r.0 == 0 || r.0 == old(self).input_frames(),
            r.1 <= old(self).max_output_frames(),
            r.1 * channels <= old(output)@.len(),
            old(self).processed(
                input@,
                old(output)@.len(),
                channels,
                final(self),
                final(output)@.take(r.1 * channels),
            ),
            final(self).input_frames() == old(self).input_frames(),
            final(self).max_output_frames() == old(self).max_output_frames(),
    ;
}

} // verus!
