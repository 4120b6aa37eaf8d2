//! What the engine shows of itself.

use vstd::prelude::*;

use crate::sample::{num, total_arithmetic, whole, Sample};

verus! {

/// What the engine tells the user interface.
#[derive(Clone, Copy, Debug)]
pub struct SharedState<S> {
    /// The source frame that is played next.
    pub position: u64,
    /// The frames of the loaded track.
    pub duration: u64,
    pub playing: bool,
    pub speed: S,
    pub pitch: S,
    /// Grows by one with every loaded track.
    pub loaded_id: u64,
}

impl<S: Sample> SharedState<S> {
    /// Nothing loaded, at the original speed and pitch.
    pub open spec fn initial() -> SharedState<S> {
        SharedState {
            position: 0,
            duration: 0,
            playing: false,
            speed: num(1),
            pitch: num(0),
            loaded_id: 0,
        }
    }

    /// The state of an engine that has just started.
    pub fn new() -> (r: SharedState<S>)
        requires
            total_arithmetic::<S>(),
        ensures
            r == Self::initial(),
    {
        SharedState {
            position: 0,
            duration: 0,
            playing: false,
            speed: whole(1),
            pitch: whole(0),
            loaded_id: 0,
        }
    }
}

} // verus!
