//! What can be found out about a track.

pub mod bpm;
