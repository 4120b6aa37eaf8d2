//! Opening the output: the track's own format first, and else what the device
//! prefers.

use vstd::prelude::*;

use crate::engine::worker::OutputFormat;

verus! {

/// What the device prefers.
#[derive(Clone, Copy, Debug, PartialEq, Eq, Structural)]
pub struct DeviceDefault {
    pub format: OutputFormat,
    /// Whether it takes single-precision samples.
    pub single_precision: bool,
}

/// Why no output can be opened.
#[derive(Clone, Copy, Debug, PartialEq, Eq, Structural)]
pub enum OutputError {
    /// The device prefers samples of a kind that is not supported.
    UnsupportedSamples,
}

/// How an output differs from the track.
#[derive(Clone, Copy, Debug, PartialEq, Eq, Structural)]
pub struct Mismatch {
    pub sample_rate: bool,
    pub channels: bool,
}

/// What to open where the track's own format cannot be had.
pub fn fallback_format(default: DeviceDefault) -> (r: Result<OutputFormat, OutputError>)
    ensures
        r == if default.single_precision {
            Ok::<OutputFormat, OutputError>(default.format)
        } else {
            Err::<OutputFormat, OutputError>(OutputError::UnsupportedSamples)
        },
{
    if default.single_precision {
        Ok(default.format)
    } else {
        Err(OutputError::UnsupportedSamples)
    }
}

/// How an output differs from the track.
pub fn mismatch(wanted: OutputFormat, opened: OutputFormat) -> (r: Mismatch)
    ensures
        r.sample_rate == (wanted.sample_rate != opened.sample_rate),
        r.channels == (wanted.channels != opened.channels),
{
    Mismatch {
        sample_rate: wanted.sample_rate != opened.sample_rate,
        channels: wanted.channels != opened.channels,
    }
}

} // verus!
