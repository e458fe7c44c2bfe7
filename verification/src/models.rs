//! The track model: global settings, steps and voices.
use vstd::prelude::*;

verus! {

/// The bit pattern of the single-precision value `1.0`.
pub const ONE_SECOND: u32 = 0x3F80_0000;

/// One generator within a step.
#[derive(Debug)]
pub struct Voice {
    /// Key into the synth registry. Unknown names are skipped, not rejected.
    pub synth_function_name: String,
    /// Marks a transition voice. Carried as data only.
    pub is_transition: bool,
    /// Parameter name to value; each synth documents the keys it reads.
    pub params: serde_json::Value,
    /// Free text, of no effect.
    pub description: String,
}

/// One segment of the timeline.
#[derive(Debug)]
pub struct Step {
    /// Length in seconds, as the bit pattern of an IEEE-754 single.
    pub duration: u32,
    /// Free text, of no effect.
    pub description: String,
    /// The voices that sound together during the step, in insertion order.
    pub voices: Vec<Voice>,
}

/// Settings shared by the whole track.
#[derive(Clone, Debug)]
pub struct GlobalSettings {
    /// Frames per second.
    pub sample_rate: u32,
    /// Crossfade length in seconds, as the bit pattern of an IEEE-754 single.
    pub crossfade_duration: u32,
    /// Name of the crossfade curve. Carried as data only.
    pub crossfade_curve: String,
    /// Where an offline render would be written. Unused in playback.
    pub output_filename: Option<String>,
}

/// A whole track: settings and the steps in playback order.
#[derive(Debug)]
pub struct Track {
    pub global_settings: GlobalSettings,
    pub steps: Vec<Step>,
}

/// The sample rate of a track that names none: 44100 Hz.
pub fn default_sample_rate() -> (rate: u32)
    ensures
        rate == 44100,
{
    44100
}

/// The crossfade duration of a track that names none: one second.
pub fn default_crossfade_duration() -> (bits: u32)
    ensures
        bits == ONE_SECOND,
{
    ONE_SECOND
}

/// The crossfade curve of a track that names none: `"linear"`.
pub fn default_crossfade_curve() -> (name: String)
    ensures
        name@ == "linear"@,
{
    "linear".to_owned()
}

impl GlobalSettings {
    /// Whether every field holds its documented default.
    pub open spec fn is_default(self) -> bool {
        &&& self.sample_rate == 44100
        &&& self.crossfade_duration == ONE_SECOND
        &&& self.crossfade_curve@ == "linear"@
        &&& self.output_filename is None
    }
}

impl Default for GlobalSettings {
    fn default() -> (settings: Self)
        ensures
            settings.is_default(),
    {
        GlobalSettings {
            sample_rate: default_sample_rate(),
            crossfade_duration: default_crossfade_duration(),
            crossfade_curve: default_crossfade_curve(),
            output_filename: None,
        }
    }
}

} // verus!
