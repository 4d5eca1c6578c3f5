//! Audio: lanes and chunks, the recording, and which device or application to
//! listen to. Samples themselves are converted, resampled and mixed by whoever
//! owns the devices.
use vstd::prelude::*;

pub mod app_capture;
pub mod audio_laws;
pub mod capture;
pub mod frames;
pub mod pipeline;
pub mod playback;
pub mod recorder;
pub mod tap;

verus! {

/// Sample rate of everything that is heard, recorded and sent.
pub const TARGET_SAMPLE_RATE: u32 = 16_000;

/// Mixed audio comes in chunks of 50 ms.
pub const CHUNK_SAMPLES: usize = 800;

/// Where audio comes from.
#[derive(Debug, Clone, Copy, PartialEq, Eq, Structural)]
pub enum AudioSource {
    Microphone,
    System,
}

} // verus!
