use realtime_audio::engine::{EngineState, PlayError, RealtimeEngine, RealtimeSynthContext};
use realtime_audio::models::{GlobalSettings, Step, Track, Voice};
use realtime_audio::synth::BinauralBeat;
use realtime_audio::timeline::Segment;

fn binaural(params: &str) -> Voice {
    Voice {
        synth_function_name: "binaural_beat".to_string(),
        is_transition: false,
        params: serde_json::from_str(params).unwrap(),
        description: String::new(),
    }
}

fn unknown() -> Voice {
    Voice {
        synth_function_name: "noise_swoosh".to_string(),
        is_transition: true,
        params: serde_json::Value::Null,
        description: "not built yet".to_string(),
    }
}

fn step(seconds: f32, voices: Vec<Voice>) -> Step {
    Step { duration: seconds.to_bits(), description: String::new(), voices }
}

fn track(sample_rate: u32, steps: Vec<Step>) -> Track {
    let mut global_settings = GlobalSettings::default();
    global_settings.sample_rate = sample_rate;
    Track { global_settings, steps }
}

fn engine_with(track: Track) -> RealtimeEngine {
    let mut engine = RealtimeEngine::new(RealtimeSynthContext::default());
    engine.load_track(track);
    engine
}

/// Three steps of 3, 2 and 4 frames at 1 Hz.
fn three_steps() -> Track {
    track(
        1,
        vec![
            step(3.0, vec![binaural(r#"{"baseFreq": 100.0}"#)]),
            step(2.0, vec![unknown(), binaural(r#"{"baseFreq": 200.0}"#)]),
            step(4.0, vec![binaural(r#"{"baseFreq": 300.0}"#), binaural("{}")]),
        ],
    )
}

/// Writes a plan out frame by frame: the step and offset of each frame, or
/// `None` for silence.
fn frames_of(plan: &[Segment]) -> Vec<Option<(usize, u64)>> {
    let mut frames = Vec::new();
    for segment in plan {
        match *segment {
            Segment::Render { step, start, len } => {
                for k in 0..len {
                    frames.push(Some((step, start + k as u64)));
                }
            }
            Segment::Silence { len } => {
                for _ in 0..len {
                    frames.push(None);
                }
            }
        }
    }
    frames
}

#[test]
fn one_step_of_eight_frames_then_exhausted() {
    let mut engine = engine_with(track(
        8,
        vec![step(
            1.0,
            vec![binaural(r#"{"baseFreq": 2.0, "beatFreq": 0.0, "ampL": 1.0, "ampR": 1.0}"#)],
        )],
    ));
    assert_eq!(engine.current_state(), EngineState::NotStarted);

    let plan = engine.fill(8);
    assert_eq!(plan, vec![Segment::Render { step: 0, start: 0, len: 8 }]);
    assert_eq!(engine.current_state(), EngineState::Playing { step: 0, frame_offset: 8 });
    let generators = engine.active_generators();
    assert_eq!(generators.len(), 1);
    assert_eq!(f64::from_bits(generators[0].base_freq), 2.0);
    assert_eq!(f64::from_bits(generators[0].beat_freq), 0.0);
    assert_eq!(f64::from_bits(generators[0].amp_l), 1.0);
    assert_eq!(f64::from_bits(generators[0].amp_r), 1.0);

    let plan = engine.fill(4);
    assert_eq!(plan, vec![Segment::Silence { len: 4 }]);
    assert_eq!(engine.current_state(), EngineState::Exhausted);
    assert_eq!(engine.active_generators().len(), 0);
}

#[test]
fn a_new_engine_has_no_track_and_has_not_started() {
    let context = RealtimeSynthContext { sample_rate: 48000, buffer_size: 256 };
    let engine = RealtimeEngine::new(context);
    assert_eq!(engine.current_state(), EngineState::NotStarted);
    assert!(engine.track().is_none());
    assert_eq!(*engine.context(), context);
    assert_eq!(engine.active_generators().len(), 0);
}

#[test]
fn start_without_a_track_fails() {
    let mut engine = RealtimeEngine::new(RealtimeSynthContext::default());
    assert_eq!(engine.start(), Err(PlayError::NoTrackLoaded));
    assert_eq!(engine.current_state(), EngineState::NotStarted);
    assert_eq!(PlayError::NoTrackLoaded.message(), "no track loaded");
}

#[test]
fn start_with_a_track_prepares_the_first_step() {
    let mut engine = engine_with(three_steps());
    assert_eq!(engine.start(), Ok(()));
    assert_eq!(engine.current_state(), EngineState::Playing { step: 0, frame_offset: 0 });
    assert_eq!(engine.active_generators().len(), 1);
    assert_eq!(f64::from_bits(engine.active_generators()[0].base_freq), 100.0);
}

#[test]
fn prepare_builds_the_generators_of_the_first_step() {
    let mut engine = engine_with(three_steps());
    engine.prepare();
    assert_eq!(engine.current_state(), EngineState::Playing { step: 0, frame_offset: 0 });
    assert_eq!(
        *engine.active_generators(),
        vec![BinauralBeat::new(&serde_json::from_str(r#"{"baseFreq": 100.0}"#).unwrap())]
    );
}

#[test]
fn prepare_leaves_a_started_engine_alone() {
    let mut engine = engine_with(three_steps());
    engine.fill(4);
    let state = engine.current_state();
    let generators = engine.active_generators().clone();
    engine.prepare();
    assert_eq!(engine.current_state(), state);
    assert_eq!(*engine.active_generators(), generators);
}

#[test]
fn prepare_on_an_empty_track_exhausts_the_engine() {
    let mut engine = engine_with(track(44100, Vec::new()));
    engine.prepare();
    assert_eq!(engine.current_state(), EngineState::Exhausted);
    assert_eq!(engine.fill(3), vec![Segment::Silence { len: 3 }]);
}

#[test]
fn a_request_inside_a_step_is_one_stretch() {
    let mut engine = engine_with(three_steps());
    assert_eq!(engine.fill(2), vec![Segment::Render { step: 0, start: 0, len: 2 }]);
    assert_eq!(engine.current_state(), EngineState::Playing { step: 0, frame_offset: 2 });
    assert_eq!(engine.fill(1), vec![Segment::Render { step: 0, start: 2, len: 1 }]);
    assert_eq!(engine.current_state(), EngineState::Playing { step: 0, frame_offset: 3 });
}

#[test]
fn the_cursor_enters_the_next_step_only_when_more_is_asked() {
    let mut engine = engine_with(three_steps());
    engine.fill(3);
    assert_eq!(engine.current_state(), EngineState::Playing { step: 0, frame_offset: 3 });
    assert_eq!(f64::from_bits(engine.active_generators()[0].base_freq), 100.0);
    assert_eq!(engine.fill(1), vec![Segment::Render { step: 1, start: 0, len: 1 }]);
    assert_eq!(engine.current_state(), EngineState::Playing { step: 1, frame_offset: 1 });
    assert_eq!(engine.active_generators().len(), 1);
    assert_eq!(f64::from_bits(engine.active_generators()[0].base_freq), 200.0);
}

#[test]
fn a_request_across_two_boundaries_is_split_per_step() {
    let mut engine = engine_with(three_steps());
    engine.fill(1);
    let plan = engine.fill(6);
    assert_eq!(
        plan,
        vec![
            Segment::Render { step: 0, start: 1, len: 2 },
            Segment::Render { step: 1, start: 0, len: 2 },
            Segment::Render { step: 2, start: 0, len: 2 },
        ]
    );
    assert_eq!(engine.current_state(), EngineState::Playing { step: 2, frame_offset: 2 });
    assert_eq!(engine.active_generators().len(), 2);
    assert_eq!(f64::from_bits(engine.active_generators()[0].base_freq), 300.0);
    assert_eq!(f64::from_bits(engine.active_generators()[1].base_freq), 200.0);
}

#[test]
fn a_request_past_the_end_is_closed_with_silence() {
    let mut engine = engine_with(three_steps());
    let plan = engine.fill(12);
    assert_eq!(
        plan,
        vec![
            Segment::Render { step: 0, start: 0, len: 3 },
            Segment::Render { step: 1, start: 0, len: 2 },
            Segment::Render { step: 2, start: 0, len: 4 },
            Segment::Silence { len: 3 },
        ]
    );
    assert_eq!(engine.current_state(), EngineState::Exhausted);
}

#[test]
fn an_exhausted_engine_gives_silence_for_ever() {
    let mut engine = engine_with(three_steps());
    engine.fill(10);
    assert_eq!(engine.current_state(), EngineState::Exhausted);
    for frames in [1usize, 512, 7, 100_000] {
        assert_eq!(engine.fill(frames), vec![Segment::Silence { len: frames }]);
        assert_eq!(engine.current_state(), EngineState::Exhausted);
        assert_eq!(engine.active_generators().len(), 0);
    }
    assert_eq!(engine.fill(0), Vec::new());
    assert_eq!(engine.current_state(), EngineState::Exhausted);
}

#[test]
fn ending_exactly_at_the_end_exhausts_on_the_next_request() {
    let mut engine = engine_with(three_steps());
    let plan = engine.fill(9);
    assert_eq!(plan.len(), 3);
    assert_eq!(engine.current_state(), EngineState::Playing { step: 2, frame_offset: 4 });
    assert_eq!(engine.fill(0), Vec::new());
    assert_eq!(engine.current_state(), EngineState::Playing { step: 2, frame_offset: 4 });
    assert_eq!(engine.fill(2), vec![Segment::Silence { len: 2 }]);
    assert_eq!(engine.current_state(), EngineState::Exhausted);
}

#[test]
fn an_empty_request_starts_the_engine_and_moves_nothing() {
    let mut engine = engine_with(three_steps());
    assert_eq!(engine.fill(0), Vec::new());
    assert_eq!(engine.current_state(), EngineState::Playing { step: 0, frame_offset: 0 });
    assert_eq!(engine.active_generators().len(), 1);
}

#[test]
fn steps_of_no_frames_are_passed_over() {
    let mut engine = engine_with(track(
        2,
        vec![
            step(0.0, vec![binaural("{}")]),
            step(1.0, vec![binaural(r#"{"baseFreq": 50.0}"#)]),
            step(0.0, vec![]),
            step(-3.0, vec![binaural("{}")]),
            step(1.5, vec![binaural(r#"{"baseFreq": 60.0}"#)]),
            step(0.1, vec![binaural("{}")]),
        ],
    ));
    let plan = engine.fill(4);
    assert_eq!(
        plan,
        vec![
            Segment::Render { step: 1, start: 0, len: 2 },
            Segment::Render { step: 4, start: 0, len: 2 },
        ]
    );
    assert_eq!(engine.current_state(), EngineState::Playing { step: 4, frame_offset: 2 });
    assert_eq!(f64::from_bits(engine.active_generators()[0].base_freq), 60.0);
    let plan = engine.fill(4);
    assert_eq!(
        plan,
        vec![Segment::Render { step: 4, start: 2, len: 1 }, Segment::Silence { len: 3 }]
    );
    assert_eq!(engine.current_state(), EngineState::Exhausted);
}

#[test]
fn an_engine_without_a_track_gives_silence() {
    let mut engine = RealtimeEngine::new(RealtimeSynthContext::default());
    assert_eq!(engine.fill(5), vec![Segment::Silence { len: 5 }]);
    assert_eq!(engine.current_state(), EngineState::Exhausted);
}

#[test]
fn loading_a_track_begins_a_new_session() {
    let mut engine = engine_with(three_steps());
    engine.fill(100);
    assert_eq!(engine.current_state(), EngineState::Exhausted);
    engine.load_track(track(4, vec![step(1.0, vec![binaural("{}")])]));
    assert_eq!(engine.current_state(), EngineState::NotStarted);
    assert_eq!(engine.active_generators().len(), 0);
    assert_eq!(engine.track().unwrap().global_settings.sample_rate, 4);
    assert_eq!(engine.fill(4), vec![Segment::Render { step: 0, start: 0, len: 4 }]);
}

#[test]
fn the_frames_rendered_are_the_frames_of_the_track() {
    for request in [1usize, 2, 3, 4, 5, 9, 10, 64] {
        let mut engine = engine_with(three_steps());
        let mut rendered = 0usize;
        let mut asked = 0usize;
        while engine.current_state() != EngineState::Exhausted {
            let plan = engine.fill(request);
            asked += request;
            assert_eq!(frames_of(&plan).len(), request);
            rendered += frames_of(&plan).iter().filter(|frame| frame.is_some()).count();
            assert_eq!(rendered, asked.min(9));
        }
        assert_eq!(rendered, 9);
    }
}

#[test]
fn frame_counts_follow_the_sample_rate() {
    let mut engine = engine_with(track(
        44100,
        vec![step(30.0, vec![binaural("{}")]), step(0.5, vec![binaural("{}")])],
    ));
    let plan = engine.fill(2_000_000);
    assert_eq!(
        plan,
        vec![
            Segment::Render { step: 0, start: 0, len: 1_323_000 },
            Segment::Render { step: 1, start: 0, len: 22_050 },
            Segment::Silence { len: 2_000_000 - 1_323_000 - 22_050 },
        ]
    );
}

#[test]
fn splitting_a_request_changes_no_frame() {
    for first in 0usize..=12 {
        for second in 0usize..=12 {
            for lead in [0usize, 1, 3, 4] {
                let mut split = engine_with(three_steps());
                let mut whole = engine_with(three_steps());
                split.fill(lead);
                whole.fill(lead);
                let mut frames = frames_of(&split.fill(first));
                frames.extend(frames_of(&split.fill(second)));
                assert_eq!(frames, frames_of(&whole.fill(first + second)));
            }
        }
    }
}

#[test]
fn every_frame_comes_from_its_place_in_the_track() {
    let mut engine = engine_with(three_steps());
    let mut frames = Vec::new();
    for request in [2usize, 5, 1, 4] {
        frames.extend(frames_of(&engine.fill(request)));
    }
    assert_eq!(
        frames,
        vec![
            Some((0, 0)),
            Some((0, 1)),
            Some((0, 2)),
            Some((1, 0)),
            Some((1, 1)),
            Some((2, 0)),
            Some((2, 1)),
            Some((2, 2)),
            Some((2, 3)),
            None,
            None,
            None,
        ]
    );
}

#[test]
fn the_same_requests_give_the_same_answers() {
    let requests = [3usize, 0, 1, 4, 1, 5, 9, 2, 6];
    let mut first = engine_with(three_steps());
    let mut second = engine_with(three_steps());
    for request in requests {
        assert_eq!(first.fill(request), second.fill(request));
        assert_eq!(first.current_state(), second.current_state());
        assert_eq!(first.active_generators(), second.active_generators());
    }
}

#[test]
fn an_unknown_voice_changes_nothing_for_the_others() {
    let with = track(
        1,
        vec![step(2.0, vec![binaural(r#"{"ampL": 0.1}"#), unknown(), binaural(r#"{"ampL": 0.2}"#)])],
    );
    let without =
        track(1, vec![step(2.0, vec![binaural(r#"{"ampL": 0.1}"#), binaural(r#"{"ampL": 0.2}"#)])]);
    let mut a = engine_with(with);
    let mut b = engine_with(without);
    assert_eq!(a.fill(5), b.fill(5));
    let mut a = engine_with(three_steps());
    a.fill(4);
    assert_eq!(a.active_generators().len(), 1);
    assert_eq!(f64::from_bits(a.active_generators()[0].base_freq), 200.0);
}

#[test]
fn a_step_rendered_afresh_starts_at_its_first_frame() {
    let mut engine = engine_with(three_steps());
    engine.fill(2);
    for request in [1usize, 1, 1, 3, 3] {
        let plan = engine.fill(request);
        for (index, segment) in plan.iter().enumerate() {
            if let Segment::Render { start, .. } = *segment {
                assert!(index == 0 || start == 0);
            }
        }
    }
}
