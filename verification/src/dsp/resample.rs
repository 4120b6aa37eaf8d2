//! Changing speed and pitch together, as a turntable does: everything goes
//! through a resampler, which is the caller's.

use vstd::prelude::*;

use crate::dsp::planes::{channel_of, in_step, interleaved, Planes};
use crate::sample::{total_arithmetic, Sample};

verus! {

/// The frames that one chunk takes in.
pub const CHUNK_FRAMES: usize = 1024;

/// What is known of the resampler.
pub struct ResampleSpeed {
    pub channels: usize,
    /// The most frames that it gives out for one chunk.
    pub max_output_frames: usize,
}

impl ResampleSpeed {
    /// Whether a chunk can be run: it is for these channels, long enough,
    /// and there is room for the most that can come out.
    pub open spec fn accepts(self, input: nat, room: nat, channels: usize) -> bool {
        &&& channels == self.channels
        &&& input >= CHUNK_FRAMES * channels
        &&& room >= self.max_output_frames * channels
    }

    /// The chunk by channel, ready for the resampler, or none where it
    /// cannot be run.
    pub fn begin<S: Sample>(&self, input: &[S], room: usize, channels: usize) -> (r: Option<
        Planes<S>,
    >)
        requires
            total_arithmetic::<S>(),
        ensures
            r is Some <==> self.accepts(input@.len(), room as nat, channels),
            r matches Some(p) ==> p@ == Seq::new(
                channels as nat,
                |c: int| channel_of(input@, channels as nat, c, CHUNK_FRAMES as nat),
            ),
    {
        if channels != self.channels {
            return None;
        }
        let len: usize = input.len();
        match (
            CHUNK_FRAMES.checked_mul(channels),
            self.max_output_frames.checked_mul(channels),
        ) {
            (Some(needed), Some(most)) => {
                if len < needed || room < most {
                    return None;
                }
            },
            _ => {
                return None;
            },
        }
        let mut planes: Planes<S> = Planes::zeros(channels, 0);
        let ghost empty = planes@;
        planes.feed(input, CHUNK_FRAMES);
        proof {
            assert forall|c: int| 0 <= c < channels implies planes@[c] == channel_of(
                input@,
                channels as nat,
                c,
                CHUNK_FRAMES as nat,
            ) by {
                assert(empty[c].len() == 0);
                assert(planes@[c] =~= channel_of(
                    input@,
                    channels as nat,
                    c,
                    CHUNK_FRAMES as nat,
                ));
            }
            assert(planes@ =~= Seq::new(
                channels as nat,
                |c: int| channel_of(input@, channels as nat, c, CHUNK_FRAMES as nat),
            ));
        }
        Some(planes)
    }

    /// Writes `made` resampled frames to the front of `output`, interleaved.
    pub fn finish<S: Sample>(&self, resampled: &Planes<S>, made: usize, output: &mut [S])
        requires
            in_step(resampled@),
            resampled@.len() == self.channels,
            made <= resampled@[0].len(),
            made * self.channels <= old(output)@.len(),
        ensures
            final(output)@.len() == old(output)@.len(),
            final(output)@.take(made * self.channels) == interleaved(resampled@, made as nat),
            final(output)@.skip(made * self.channels) == old(output)@.skip(made * self.channels),
    {
        resampled.write_interleaved(output, made);
    }
}

} // verus!
