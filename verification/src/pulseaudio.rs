//! The audio stream configuration shared by capture and playback.
//!
//! The device adapters themselves live outside the verified library, next
//! to the rest of the I/O; they take their stream parameters from here.
use vstd::prelude::*;

use crate::{CHANNELS, SAMPLE_RATE};

verus! {

/// A stream's sample format as plain numbers: the sample-format code, the
/// rate, and the channel count.
pub struct PaSampleSpec {
    pub format: u32,
    pub rate: u32,
    pub channels: u8,
}

impl PaSampleSpec {
    /// The one format every stream here uses: signed 16-bit native-endian
    /// stereo at 48 kHz. On little-endian hosts the native 16-bit format
    /// carries code 3.
    pub fn voice() -> (s: PaSampleSpec)
        ensures
            s.format == 3,
            s.rate == SAMPLE_RATE,
            s.channels == CHANNELS as u8,
    {
        PaSampleSpec { format: 3, rate: SAMPLE_RATE, channels: 2 }
    }
}

} // verus!
