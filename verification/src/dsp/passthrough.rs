//! A processor that changes nothing.

use vstd::prelude::*;

use crate::dsp::TimePitchProcessor;
use crate::sample::Sample;

verus! {

/// The frames of one chunk.
pub const PASSTHROUGH_CHUNK_FRAMES: usize = 1024;

/// Hands every chunk on as it came. Speed and pitch are taken and ignored.
pub struct Passthrough;

impl Passthrough {
    /// A processor that changes nothing.
    pub fn new() -> (r: Passthrough)
        ensures
            r == Passthrough,
    {
        Passthrough
    }
}

impl Default for Passthrough {
    fn default() -> (r: Passthrough)
        ensures
            r == Passthrough,
    {
        Passthrough::new()
    }
}

impl<S: Sample> TimePitchProcessor<S> for Passthrough {
    open spec fn valid(&self) -> bool {
        true
    }

    open spec fn input_frames(&self) -> nat {
        PASSTHROUGH_CHUNK_FRAMES as nat
    }

    open spec fn max_output_frames(&self) -> nat {
        PASSTHROUGH_CHUNK_FRAMES as nat
    }

    open spec fn expected_output_frames(&self) -> nat {
        PASSTHROUGH_CHUNK_FRAMES as nat
    }

    open spec fn sped(&self, speed: S, after: &Self) -> bool {
        true
    }

    open spec fn pitched(&self, semitones: S, after: &Self) -> bool {
        true
    }

    open spec fn processed(
        &self,
        input: Seq<S>,
        room: nat,
        channels: usize,
        after: &Self,
        output: Seq<S>,
    ) -> bool {
        let n = PASSTHROUGH_CHUNK_FRAMES * channels;
        output == if n > usize::MAX || input.len() < n || room < n {
            Seq::<S>::empty()
        } else {
            input.take(n)
        }
    }

    fn set_speed(&mut self, speed: S) {
    }

    fn set_pitch_semitones(&mut self, semitones: S) {
    }

    fn input_frames_per_chunk(&self) -> (r: usize) {
        PASSTHROUGH_CHUNK_FRAMES
    }

    fn max_output_frames_per_chunk(&self) -> (r: usize) {
        PASSTHROUGH_CHUNK_FRAMES
    }

    fn expected_output_frames_per_chunk(&self) -> (r: usize) {
        PASSTHROUGH_CHUNK_FRAMES
    }

    /// Copies one chunk. Where the input or the room for it is short, nothing
    /// happens.
    fn process(&mut self, input: &[S], output: &mut [S], channels: usize) -> (r: (usize, usize))
        ensures
            ({
                let n = PASSTHROUGH_CHUNK_FRAMES * channels;
                if n > usize::MAX || input@.len() < n || old(output)@.len() < n {
                    r == (0usize, 0usize) && final(output)@ == old(output)@
                } else {
                    &&& r == (PASSTHROUGH_CHUNK_FRAMES, PASSTHROUGH_CHUNK_FRAMES)
                    &&& final(output)@ == input@.take(n) + old(output)@.skip(n)
                }
            }),
    {
        proof {
            vstd::arithmetic::mul::lemma_mul_basics(channels as int);
        }
        let samples: usize = match PASSTHROUGH_CHUNK_FRAMES.checked_mul(channels) {
            Some(n) => n,
            None => {
                assert(output@.take(0) =~= Seq::<S>::empty());
                return (0, 0);
            },
        };
        if input.len() < samples || output.len() < samples {
            assert(output@.take(0) =~= Seq::<S>::empty());
            return (0, 0);
        }
        let mut i: usize = 0;
        while i < samples
            invariant
                i <= samples,
                samples <= input@.len(),
                samples <= old(output)@.len(),
                output@.len() == old(output)@.len(),
                forall|j: int| 0 <= j < i ==> #[trigger] output@[j] == input@[j],
                forall|j: int| i <= j < output@.len() ==> #[trigger] output@[j] == old(output)@[j],
            decreases samples - i,
        {
            output[i] = input[i];
            i = i + 1;
        }
        assert(output@ =~= input@.take(samples as int) + old(output)@.skip(samples as int));
        assert(output@.take(samples as int) =~= input@.take(samples as int));
        (PASSTHROUGH_CHUNK_FRAMES, PASSTHROUGH_CHUNK_FRAMES)
    }
}

} // verus!
