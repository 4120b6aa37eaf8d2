//! Reading a whole file: what to make of each packet.

use vstd::prelude::*;

use crate::sample::Sample;
use crate::track::Track;

verus! {

/// Why a file cannot be read.
#[derive(Clone, Copy, Debug, PartialEq, Eq, Structural)]
pub enum DecodeError {
    NoTrack,
    NoSampleRate,
    NoChannelLayout,
}

/// What a file says of its sound, where it has any.
#[derive(Clone, Copy, Debug, PartialEq, Eq, Structural)]
pub struct TrackHeader {
    pub track_id: u32,
    pub sample_rate: Option<u32>,
    pub channels: Option<usize>,
}

/// What came of an attempt to read a packet.
#[derive(Clone, Copy, Debug, PartialEq, Eq, Structural)]
pub enum ReadOutcome {
    /// A packet of a track.
    Packet(u32),
    EndOfFile,
    Failed,
}

/// What came of an attempt to decode a packet.
#[derive(Clone, Copy, Debug, PartialEq, Eq, Structural)]
pub enum DecodeOutcome {
    Decoded,
    /// This packet is damaged.
    Damaged,
    Failed,
}

/// How to go on.
#[derive(Clone, Copy, Debug, PartialEq, Eq, Structural)]
pub enum DecodeStep {
    /// Use what came.
    Take,
    /// Go on with the next packet.
    Skip,
    /// The file is complete.
    Finish,
    /// Give up.
    Fail,
}

/// A file that is being read.
pub struct Decoding<S> {
    pub track_id: u32,
    pub sample_rate: u32,
    pub channels: u16,
    pub samples: Vec<S>,
}

impl<S: Sample> Decoding<S> {
    /// Starts on the first track that can be decoded. Without one, or where
    /// it does not say its rate and channels, the file cannot be read.
    pub fn start(header: Option<TrackHeader>) -> (r: Result<Decoding<S>, DecodeError>)
        ensures
            match header {
                None => r == Err::<Decoding<S>, DecodeError>(DecodeError::NoTrack),
                Some(h) => match (h.sample_rate, h.channels) {
                    (None, _) => r == Err::<Decoding<S>, DecodeError>(DecodeError::NoSampleRate),
                    (_, None) => r == Err::<Decoding<S>, DecodeError>(DecodeError::NoChannelLayout),
                    (Some(rate), Some(n)) => {
                        &&& r is Ok
                        &&& r->Ok_0.track_id == h.track_id
                        &&& r->Ok_0.sample_rate == rate
                        &&& r->Ok_0.channels == n % 65536
                        &&& r->Ok_0.samples@ == Seq::<S>::empty()
                    },
                },
            },
    {
        let h: TrackHeader = match header {
            Some(h) => h,
            None => {
                return Err(DecodeError::NoTrack);
            },
        };
        let sample_rate: u32 = match h.sample_rate {
            Some(rate) => rate,
            None => {
                return Err(DecodeError::NoSampleRate);
            },
        };
        let channels: u16 = match h.channels {
            Some(n) => (n % 65536) as u16,
            None => {
                return Err(DecodeError::NoChannelLayout);
            },
        };
        Ok(Decoding { track_id: h.track_id, sample_rate, channels, samples: Vec::new() })
    }

    /// How to go on after an attempt to read a packet: those of other tracks
    /// are passed over.
    pub fn after_read(&self, outcome: ReadOutcome) -> (r: DecodeStep)
        ensures
            r == match outcome {
                ReadOutcome::Packet(id) => if id == self.track_id {
                    DecodeStep::Take
                } else {
                    DecodeStep::Skip
                },
                ReadOutcome::EndOfFile => DecodeStep::Finish,
                ReadOutcome::Failed => DecodeStep::Fail,
            },
    {
        match outcome {
            ReadOutcome::Packet(id) => if id == self.track_id {
                DecodeStep::Take
            } else {
                DecodeStep::Skip
            },
            ReadOutcome::EndOfFile => DecodeStep::Finish,
            ReadOutcome::Failed => DecodeStep::Fail,
        }
    }

    /// How to go on after an attempt to decode a packet: a damaged one is
    /// passed over. Decoded samples are appended.
    pub fn after_decode(&mut self, outcome: DecodeOutcome, decoded: &[S]) -> (r: DecodeStep)
        ensures
            r == match outcome {
                DecodeOutcome::Decoded => DecodeStep::Take,
                DecodeOutcome::Damaged => DecodeStep::Skip,
                DecodeOutcome::Failed => DecodeStep::Fail,
            },
            final(self).track_id == old(self).track_id,
            final(self).sample_rate == old(self).sample_rate,
            final(self).channels == old(self).channels,
            final(self).samples@ == if outcome == DecodeOutcome::Decoded {
                old(self).samples@ + decoded@
            } else {
                old(self).samples@
            },
    {
        match outcome {
            DecodeOutcome::Decoded => {
                let mut i: usize = 0;
                while i < decoded.len()
                    invariant
                        i <= decoded@.len(),
                        self.track_id == old(self).track_id,
                        self.sample_rate == old(self).sample_rate,
                        self.channels == old(self).channels,
                        self.samples@ =~= old(self).samples@ + decoded@.take(i as int),
                    decreases decoded@.len() - i,
                {
                    self.samples.push(decoded[i]);
                    i = i + 1;
                }
                assert(decoded@.take(i as int) =~= decoded@);
                DecodeStep::Take
            },
            DecodeOutcome::Damaged => DecodeStep::Skip,
            DecodeOutcome::Failed => DecodeStep::Fail,
        }
    }

    /// The whole track.
    pub fn finish(self) -> (r: Track<S>)
        ensures
            r.samples == self.samples,
            r.sample_rate == self.sample_rate,
            r.channels == self.channels,
    {
        Track { samples: self.samples, sample_rate: self.sample_rate, channels: self.channels }
    }
}

} // verus!
