//! What the user interface asks of the engine.

use std::sync::Arc;

use vstd::prelude::*;

use crate::dsp::eq::EqSettings;
use crate::dsp::DspKind;
use crate::engine::metronome::MetronomeSettings;
use crate::engine::speed_ramp::SpeedRampSettings;
use crate::track::{LoopRegion, Track};

verus! {

/// A wish of the user.
pub enum Command<S> {
    /// Play this track from its beginning once told to.
    LoadTrack(Arc<Track<S>>),
    Play,
    Pause,
    /// Pause and go back to frame 0.
    Stop,
    /// Go to a source frame, or to the end where there is no such frame.
    Seek(u64),
    SetLoop(Option<LoopRegion>),
    SetSpeed(S),
    SetPitch(S),
    /// Change to another family of processors. Without a track the wish is
    /// remembered for the next one.
    SetDsp(DspKind),
    SetMetronome(MetronomeSettings<S>),
    /// The output volume in decibels.
    SetMasterVolume(S),
    SetEq(EqSettings<S>),
    SetSpeedRamp(SpeedRampSettings<S>),
}

} // verus!
