//! Loop Studio: the logic of a player to practise music with.
//!
//! A track is decoded as a whole. The engine reads it chunk by chunk, round
//! and round where a loop is set, and sends each chunk through a processor
//! that changes speed and pitch, an equaliser, a metronome and the output
//! gain. Around the engine are the state of the program, the sessions that
//! keep it, and the rules of each control.

pub mod analysis;
pub mod audio;
pub mod dsp;
pub mod engine;
pub mod fixed;
pub mod frames;
pub mod reading;
pub mod render;
pub mod sample;
pub mod session;
pub mod studio;
pub mod text;
pub mod track;
pub mod ui;
