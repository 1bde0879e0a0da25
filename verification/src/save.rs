//! What a save writes, computed from the shared state.
//!
//! A save snapshots the rolling history, derives the WAV sample format from
//! the audio source's active configuration at the time of the call (not at
//! fill time), and names the file after the local wall-clock time.  The file
//! and directory I/O around this plan stays outside the crate.

use vstd::prelude::*;

use crate::stamp::TimeParts;
use crate::stamp::recording_filename;
use crate::stamp::spec_recording_filename;
use crate::stamp::time_parts_wf;
use crate::state::AudioState;

verus! {

/// The sample format a saved file is written with.
pub struct WavParams {
    pub channels: u16,
    pub sample_rate: u32,
    pub bits_per_sample: u16,
    pub float_samples: bool,
}

/// The format of a save of the rolling history: 32-bit floating-point
/// samples, channel count and sample rate taken from the source's current
/// configuration.
pub fn wav_params(channels: u16, sample_rate: u32) -> (p: WavParams)
    ensures
        p.channels == channels,
        p.sample_rate == sample_rate,
        p.bits_per_sample == 32,
        p.float_samples == true,
{
    WavParams { channels, sample_rate, bits_per_sample: 32, float_samples: true }
}

/// Everything a save writes: the timestamped name inside the output
/// directory, the snapshot of the history, and the sample format.
pub struct SavePlan {
    pub filename: String,
    pub samples: Vec<u32>,
    pub params: WavParams,
}

impl AudioState {
    /// Plan a save: snapshot the whole history without clearing it, name the
    /// file after the given local time, and fix the sample format from the
    /// source's current channel count and sample rate.  The written sample
    /// count a successful save reports is the snapshot's length.
    pub fn save_plan(&self, t: &TimeParts, channels: u16, sample_rate: u32) -> (plan: SavePlan)
        requires
            time_parts_wf(*t),
        ensures
            plan.filename@ == spec_recording_filename(*t),
            plan.samples@ == self@.contents,
            plan.params.channels == channels,
            plan.params.sample_rate == sample_rate,
            plan.params.bits_per_sample == 32,
            plan.params.float_samples == true,
    {
        SavePlan {
            filename: recording_filename(t),
            samples: self.snapshot(),
            params: wav_params(channels, sample_rate),
        }
    }
}

} // verus!
