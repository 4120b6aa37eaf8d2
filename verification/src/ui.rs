//! What the controls on the screen do.

pub mod eq;
pub mod loops;
pub mod markers;
pub mod metronome;
pub mod shortcuts;
pub mod speed_ramp;
pub mod transport;
pub mod waveform;
