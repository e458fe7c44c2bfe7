//! A step-sequenced, multi-voice synthesis engine.
//!
//! A [`Track`](models::Track) is an ordered list of timed steps, each holding
//! the voices that sound during it. The [`RealtimeEngine`](engine::RealtimeEngine)
//! walks that timeline on demand: every request for a block of frames is
//! answered with the exact stretch of each step that falls inside the block,
//! followed by silence once the track has run out.
//!
//! Verus has no floating-point reasoning, so the crate computes no samples.
//! Real quantities (durations, frequencies, gains) are carried as IEEE-754 bit
//! patterns; the one place that needs their value, the length of a step in
//! frames, decodes the pattern and works in exact integer arithmetic.
pub mod buffer;
pub mod duration;
pub mod engine;
pub mod models;
pub mod params;
pub mod synth;
pub mod timeline;

pub use crate::engine::{EngineState, PlayError, RealtimeEngine, RealtimeSynthContext};
pub use crate::models::{GlobalSettings, Step, Track, Voice};
pub use crate::synth::BinauralBeat;
pub use crate::timeline::Segment;
