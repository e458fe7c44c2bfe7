//! The synth registry: from a synth-function name and a parameter mapping to
//! the generator that a voice asks for.
use vstd::prelude::*;

use crate::models::Voice;
use crate::params::{number_or, number_param};

verus! {

/// The bit pattern of the double `200.0`: the base frequency, in Hz, of a
/// binaural beat that names none.
pub const DEFAULT_BASE_FREQ: u64 = 0x4069_0000_0000_0000;

/// The bit pattern of the double `4.0`: the beat frequency, in Hz, of a
/// binaural beat that names none.
pub const DEFAULT_BEAT_FREQ: u64 = 0x4010_0000_0000_0000;

/// The bit pattern of the double `0.5`: the gain of a channel of a binaural
/// beat that names none.
pub const DEFAULT_AMP: u64 = 0x3FE0_0000_0000_0000;

/// The settings of a binaural-beat generator, each the bit pattern of an
/// IEEE-754 double. The left channel sounds at `base_freq - beat_freq / 2`,
/// the right at `base_freq + beat_freq / 2`.
#[derive(Clone, Copy, Debug, PartialEq, Eq, Structural)]
pub struct BinauralBeat {
    /// Linear gain of the left channel.
    pub amp_l: u64,
    /// Linear gain of the right channel.
    pub amp_r: u64,
    /// Centre frequency in Hz.
    pub base_freq: u64,
    /// Difference between the two channels' frequencies in Hz.
    pub beat_freq: u64,
}

impl BinauralBeat {
    /// The generator that a parameter mapping describes: each of `ampL`,
    /// `ampR`, `baseFreq` and `beatFreq` where the mapping holds a number
    /// under that key, and its default where it does not.
    pub open spec fn from_params(params: serde_json::Value) -> BinauralBeat {
        BinauralBeat {
            amp_l: number_or(params, "ampL"@, DEFAULT_AMP),
            amp_r: number_or(params, "ampR"@, DEFAULT_AMP),
            base_freq: number_or(params, "baseFreq"@, DEFAULT_BASE_FREQ),
            beat_freq: number_or(params, "beatFreq"@, DEFAULT_BEAT_FREQ),
        }
    }

    /// Reads the generator's settings from a parameter mapping. Total: what
    /// is missing or malformed takes its default.
    pub fn new(params: &serde_json::Value) -> (beat: Self)
        ensures
            beat == Self::from_params(*params),
    {
        BinauralBeat {
            amp_l: number_param(params, "ampL", DEFAULT_AMP),
            amp_r: number_param(params, "ampR", DEFAULT_AMP),
            base_freq: number_param(params, "baseFreq", DEFAULT_BASE_FREQ),
            beat_freq: number_param(params, "beatFreq", DEFAULT_BEAT_FREQ),
        }
    }
}

/// The generator registered under `name` for the given parameters, if any.
pub open spec fn registered(name: Seq<char>, params: serde_json::Value) -> Option<BinauralBeat> {
    if name == "binaural_beat"@ {
        Some(BinauralBeat::from_params(params))
    } else {
        None
    }
}

/// The generators of a list of voices: one for each voice whose synth
/// function is registered, in the order of the voices.
pub open spec fn generators_of(voices: Seq<Voice>) -> Seq<BinauralBeat>
    decreases voices.len(),
{
    if voices.len() == 0 {
        Seq::empty()
    } else {
        let earlier = generators_of(voices.drop_last());
        match registered(voices.last().synth_function_name@, voices.last().params) {
            Some(generator) => earlier.push(generator),
            None => earlier,
        }
    }
}

/// Looks a synth function up by name and builds its generator from the
/// parameters. An unknown name gives `None`; that is no error.
pub fn create(name: &str, params: &serde_json::Value) -> (generator: Option<BinauralBeat>)
    ensures
        generator == registered(name@, *params),
{
    if name.to_owned() == "binaural_beat".to_owned() {
        Some(BinauralBeat::new(params))
    } else {
        None
    }
}

/// Builds the generators of a step's voices, skipping every voice whose
/// synth function is unknown.
pub fn create_generators(voices: &Vec<Voice>) -> (generators: Vec<BinauralBeat>)
    ensures
        generators@ == generators_of(voices@),
{
    let mut generators: Vec<BinauralBeat> = Vec::new();
    let mut i: usize = 0;
    while i < voices.len()
        invariant
            i <= voices.len(),
            generators@ == generators_of(voices@.take(i as int)),
        decreases voices.len() - i,
    {
        let voice = &voices[i];
        proof {
            assert(voices@.take(i + 1).drop_last() == voices@.take(i as int));
        }
        match create(voice.synth_function_name.as_str(), &voice.params) {
            Some(generator) => generators.push(generator),
            None => {},
        }
        i += 1;
    }
    proof {
        assert(voices@.take(i as int) == voices@);
    }
    generators
}

/// The generators of two lists of voices joined are the generators of the
/// first followed by those of the second.
pub proof fn lemma_generators_of_joined(first: Seq<Voice>, second: Seq<Voice>)
    ensures
        generators_of(first + second) == generators_of(first) + generators_of(second),
    decreases second.len(),
{
    if second.len() == 0 {
        assert(first + second == first);
    } else {
        lemma_generators_of_joined(first, second.drop_last());
        assert((first + second).drop_last() == first + second.drop_last());
    }
}

/// A voice whose synth function is not registered adds no generator and
/// changes none of the others. The step sounds as if the voice were not
/// there.
pub proof fn lemma_unknown_voice_is_skipped(before: Seq<Voice>, voice: Voice, after: Seq<Voice>)
    requires
        registered(voice.synth_function_name@, voice.params) is None,
    ensures
        generators_of(before.push(voice) + after) == generators_of(before + after),
{
    assert(before.push(voice).drop_last() == before);
    lemma_generators_of_joined(before.push(voice), after);
    lemma_generators_of_joined(before, after);
}

/// A voice whose synth function is registered adds its generator at the
/// voice's place among the generators of the other voices.
pub proof fn lemma_known_voice_is_kept(before: Seq<Voice>, voice: Voice, after: Seq<Voice>)
    requires
        registered(voice.synth_function_name@, voice.params) is Some,
    ensures
        generators_of(before.push(voice) + after) == generators_of(before).push(
            registered(voice.synth_function_name@, voice.params)->0,
        ) + generators_of(after),
{
    assert(before.push(voice).drop_last() == before);
    lemma_generators_of_joined(before.push(voice), after);
}

} // verus!
