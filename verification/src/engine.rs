//! The render engine: a cursor over the steps of a track that answers each
//! request for frames with the stretches of the timeline that fill it.
use vstd::prelude::*;

use crate::duration::frame_count;
use crate::models::{Step, Track};
use crate::synth::{create_generators, generators_of, BinauralBeat};
use crate::timeline::{
    cursor_after, cursor_in_track, cursor_position, frame_is, lemma_cursor_after_position,
    lemma_cursor_position_in_track, lemma_exhausted_is_silent, lemma_frames_before_increases,
    lemma_plan_frames, lemma_plan_rendered_frames, lemma_rendered_after_request,
    lemma_rendered_before_request, lemma_step_lengths_machine_sized, plan_frames, plan_of,
    rendered, rendered_frames, step_lengths, total_frames, Segment,
};

verus! {

/// What the playback side is set up with.
#[derive(Clone, Copy, Debug, PartialEq, Eq, Structural)]
pub struct RealtimeSynthContext {
    /// Frames per second that the output runs at.
    pub sample_rate: u32,
    /// Frames asked for at a time.
    pub buffer_size: usize,
}

impl Default for RealtimeSynthContext {
    /// 44100 Hz, 512 frames at a time.
    fn default() -> (context: Self)
        ensures
            context.sample_rate == 44100,
            context.buffer_size == 512,
    {
        RealtimeSynthContext { sample_rate: 44100, buffer_size: 512 }
    }
}

/// Where an engine stands.
#[derive(Clone, Copy, Debug, PartialEq, Eq, Structural)]
pub enum EngineState {
    /// Nothing has been prepared or rendered yet.
    NotStarted,
    /// `frame_offset` frames of step `step` have been rendered.
    Playing { step: usize, frame_offset: u64 },
    /// The cursor has passed the last step. Only silence follows.
    Exhausted,
}

/// Why playback cannot start.
#[derive(Clone, Copy, Debug, PartialEq, Eq, Structural)]
pub enum PlayError {
    /// The engine holds no track.
    NoTrackLoaded,
}

impl PlayError {
    /// The error in words.
    pub fn message(&self) -> (text: String)
        ensures
            text@ == "no track loaded"@,
    {
        match self {
            PlayError::NoTrackLoaded => "no track loaded".to_owned(),
        }
    }
}

/// The generators of step `step`, or none where there is no such step.
pub open spec fn generators_at(steps: Seq<Step>, step: int) -> Seq<BinauralBeat> {
    if 0 <= step < steps.len() {
        generators_of(steps[step].voices@)
    } else {
        Seq::empty()
    }
}

/// The render engine.
pub struct RealtimeEngine {
    context: RealtimeSynthContext,
    track: Option<Track>,
    started: bool,
    current_step: usize,
    frames_rendered_in_step: u64,
    synths: Vec<BinauralBeat>,
}

impl RealtimeEngine {
    /// The context the engine was made with.
    pub closed spec fn context_of(&self) -> RealtimeSynthContext {
        self.context
    }

    /// The track that was loaded, if one was.
    pub closed spec fn loaded_track(&self) -> Option<Track> {
        self.track
    }

    /// Whether a step has been prepared or a request answered.
    pub closed spec fn started(&self) -> bool {
        self.started
    }

    /// The index of the current step and the frames of it rendered so far.
    pub closed spec fn cursor(&self) -> (int, int) {
        (self.current_step as int, self.frames_rendered_in_step as int)
    }

    /// The generators that are active now.
    pub closed spec fn generators(&self) -> Seq<BinauralBeat> {
        self.synths@
    }

    /// The steps of the loaded track; none where no track is loaded.
    pub open spec fn steps(&self) -> Seq<Step> {
        match self.loaded_track() {
            Some(track) => track.steps@,
            None => Seq::empty(),
        }
    }

    /// The sample rate of the loaded track.
    pub open spec fn sample_rate(&self) -> u32 {
        match self.loaded_track() {
            Some(track) => track.global_settings.sample_rate,
            None => 0,
        }
    }

    /// The length in frames of every step of the loaded track.
    pub open spec fn lengths(&self) -> Seq<nat> {
        step_lengths(self.steps(), self.sample_rate())
    }

    /// The frames of the track that lie behind the cursor.
    pub open spec fn position(&self) -> int {
        cursor_position(self.lengths(), self.cursor())
    }

    /// Where the engine stands.
    pub open spec fn state(&self) -> EngineState {
        if !self.started() {
            EngineState::NotStarted
        } else if self.cursor().0 >= self.steps().len() {
            EngineState::Exhausted
        } else {
            EngineState::Playing {
                step: self.cursor().0 as usize,
                frame_offset: self.cursor().1 as u64,
            }
        }
    }

    /// The engine's invariant: the cursor is inside the track or just past its
    /// last step, an engine that has not started stands at the very beginning
    /// with no generators, and one that has started holds exactly the
    /// generators of the current step.
    pub open spec fn wf(&self) -> bool {
        &&& cursor_in_track(self.lengths(), self.cursor())
        &&& !self.started() ==> self.cursor() == (0int, 0int) && self.generators().len() == 0
        &&& self.started() ==> self.generators() == generators_at(self.steps(), self.cursor().0)
    }

    /// An engine with no track, not started.
    pub fn new(context: RealtimeSynthContext) -> (engine: Self)
        ensures
            engine.wf(),
            engine.context_of() == context,
            engine.loaded_track() is None,
            engine.state() == EngineState::NotStarted,
            engine.cursor() == (0int, 0int),
    {
        RealtimeEngine {
            context,
            track: None,
            started: false,
            current_step: 0,
            frames_rendered_in_step: 0,
            synths: Vec::new(),
        }
    }

    /// Loads a track and puts the engine at its beginning, not started.
    /// Whatever was loaded or rendered before is forgotten.
    pub fn load_track(&mut self, track: Track)
        ensures
            final(self).wf(),
            final(self).context_of() == old(self).context_of(),
            final(self).loaded_track() == Some(track),
            final(self).state() == EngineState::NotStarted,
            final(self).cursor() == (0int, 0int),
    {
        self.track = Some(track);
        self.started = false;
        self.current_step = 0;
        self.frames_rendered_in_step = 0;
        self.synths = Vec::new();
    }

    /// The context the engine was made with.
    pub fn context(&self) -> (context: &RealtimeSynthContext)
        ensures
            *context == self.context_of(),
    {
        &self.context
    }

    /// The loaded track, if there is one.
    pub fn track(&self) -> (track: Option<&Track>)
        ensures
            match track {
                Some(track) => self.loaded_track() == Some(*track),
                None => self.loaded_track() is None,
            },
    {
        match &self.track {
            Some(track) => Some(track),
            None => None,
        }
    }

    /// Where the engine stands.
    pub fn current_state(&self) -> (state: EngineState)
        ensures
            state == self.state(),
    {
        if !self.started {
            EngineState::NotStarted
        } else if self.current_step >= self.step_count() {
            EngineState::Exhausted
        } else {
            EngineState::Playing {
                step: self.current_step,
                frame_offset: self.frames_rendered_in_step,
            }
        }
    }

    /// The generators that are active now: those of the current step once the
    /// engine has started, none before that and once it is exhausted.
    pub fn active_generators(&self) -> (generators: &Vec<BinauralBeat>)
        ensures
            generators@ == self.generators(),
    {
        &self.synths
    }

    /// The number of steps of the loaded track.
    fn step_count(&self) -> (count: usize)
        ensures
            count == self.steps().len(),
    {
        match &self.track {
            Some(track) => track.steps.len(),
            None => 0,
        }
    }

    /// The length in frames of step `index`.
    fn step_length(&self, index: usize) -> (frames: u64)
        requires
            index < self.steps().len(),
        ensures
            frames == self.lengths()[index as int],
    {
        match &self.track {
            Some(track) => frame_count(
                track.steps[index].duration,
                track.global_settings.sample_rate,
            ),
            None => 0,
        }
    }

    /// Moves the cursor to the start of step `index`, or just past the last
    /// step where there is no such step, and replaces the active generators
    /// with those of the step's voices.
    fn prepare_step(&mut self, index: usize)
        ensures
            final(self).wf(),
            final(self).started(),
            final(self).context_of() == old(self).context_of(),
            final(self).loaded_track() == old(self).loaded_track(),
            final(self).cursor() == (
                if index < old(self).steps().len() {
                    index as int
                } else {
                    old(self).steps().len() as int
                },
                0int,
            ),
    {
        let count = self.step_count();
        let generators = match &self.track {
            Some(track) => if index < track.steps.len() {
                create_generators(&track.steps[index].voices)
            } else {
                Vec::new()
            },
            None => Vec::new(),
        };
        self.current_step = if index < count {
            index
        } else {
            count
        };
        self.frames_rendered_in_step = 0;
        self.synths = generators;
        self.started = true;
    }

    /// Starts the engine: builds the generators of the first step. An engine
    /// that has started already is left as it is.
    pub fn prepare(&mut self)
        requires
            old(self).wf(),
        ensures
            final(self).wf(),
            final(self).started(),
            final(self).context_of() == old(self).context_of(),
            final(self).loaded_track() == old(self).loaded_track(),
            final(self).cursor() == old(self).cursor(),
            final(self).generators() == generators_at(old(self).steps(), old(self).cursor().0),
            old(self).started() ==> final(self).state() == old(self).state(),
    {
        if !self.started {
            self.prepare_step(0);
        }
    }

    /// Begins a playback session: fails, and changes nothing, where no track
    /// is loaded; prepares the engine where one is.
    pub fn start(&mut self) -> (outcome: Result<(), PlayError>)
        requires
            old(self).wf(),
        ensures
            final(self).wf(),
            final(self).context_of() == old(self).context_of(),
            final(self).loaded_track() == old(self).loaded_track(),
            final(self).cursor() == old(self).cursor(),
            old(self).started() ==> final(self).state() == old(self).state(),
            match outcome {
                Ok(_) => {
                    &&& old(self).loaded_track() is Some
                    &&& final(self).started()
                    &&& final(self).generators() == generators_at(
                        old(self).steps(),
                        old(self).cursor().0,
                    )
                },
                Err(error) => {
                    &&& old(self).loaded_track() is None
                    &&& error == PlayError::NoTrackLoaded
                    &&& final(self).started() == old(self).started()
                    &&& final(self).generators() == old(self).generators()
                },
            },
    {
        if self.track.is_none() {
            return Err(PlayError::NoTrackLoaded);
        }
        self.prepare();
        Ok(())
    }

    /// Answers a request for `frames` frames and moves the cursor past them.
    ///
    /// The answer holds, in order, one stretch for every step that the request
    /// reaches into, then one stretch of silence for the frames that the track
    /// cannot give. Generators belong to a step: a stretch that starts at
    /// frame 0 of its step is rendered by generators built afresh, any other
    /// by those that rendered the frames before it.
    ///
    /// Afterwards the cursor stands behind the last frame handed out; it moves
    /// into the next step only when a later request asks for more. Once the
    /// track cannot fill a request the engine is exhausted for good.
    pub fn fill(&mut self, frames: usize) -> (plan: Vec<Segment>)
        requires
            old(self).wf(),
        ensures
            final(self).wf(),
            final(self).started(),
            final(self).context_of() == old(self).context_of(),
            final(self).loaded_track() == old(self).loaded_track(),
            plan@ == plan_of(old(self).lengths(), old(self).position(), frames as int),
            plan_frames(plan@).len() == frames,
            final(self).position() == old(self).position() + rendered_frames(plan@),
            cursor_after(
                old(self).lengths(),
                old(self).cursor(),
                frames as int,
                final(self).cursor(),
            ),
            final(self).generators() == generators_at(old(self).steps(), final(self).cursor().0),
            old(self).position() + frames > total_frames(old(self).lengths())
                ==> final(self).state() == EngineState::Exhausted,
            old(self).state() == EngineState::Exhausted ==> final(self).state()
                == EngineState::Exhausted && plan@ == (if frames > 0 {
                seq![Segment::Silence { len: frames }]
            } else {
                Seq::<Segment>::empty()
            }),
    {
        let ghost lengths = self.lengths();
        let ghost start = self.position();
        let ghost cursor = self.cursor();
        let step_count = self.step_count();
        proof {
            lemma_cursor_position_in_track(lengths, cursor);
            lemma_step_lengths_machine_sized(self.steps(), self.sample_rate());
            lemma_plan_frames(lengths, start, frames as int);
            lemma_plan_rendered_frames(lengths, start, frames as int);
            if self.state() == EngineState::Exhausted {
                lemma_exhausted_is_silent(lengths, start, frames as int);
            }
        }
        if !self.started {
            self.prepare_step(0);
        }
        let mut plan: Vec<Segment> = Vec::new();
        let mut need: usize = frames;
        proof {
            lemma_rendered_before_request(lengths, start, frames as int, cursor.0);
            if frames == 0 {
                lemma_rendered_after_request(lengths, start, 0, 0, lengths.len() as int);
            }
        }
        while need > 0 && self.current_step < step_count
            invariant
                self.wf(),
                self.started(),
                self.context_of() == old(self).context_of(),
                self.loaded_track() == old(self).loaded_track(),
                lengths == self.lengths(),
                step_count == self.steps().len(),
                0 <= start <= total_frames(lengths),
                need <= frames,
                frames == 0 ==> self.cursor() == cursor,
                need > 0 ==> plan@ == rendered(lengths, start, frames as int, self.cursor().0),
                need > 0 ==> self.position() == start + (frames - need),
                need > 0 ==> need == frames || self.cursor().1 == 0,
                need == 0 ==> plan@ == rendered(lengths, start, frames as int, lengths.len() as int),
                need == 0 ==> start + frames <= total_frames(lengths),
                need == 0 && frames > 0 ==> self.cursor().1 >= 1 && frame_is(
                    lengths,
                    start + frames - 1,
                    self.cursor().0,
                    self.cursor().1 - 1,
                ),
            decreases step_count - self.current_step, need,
        {
            let step = self.current_step;
            let length = self.step_length(step);
            let remaining: u64 = length - self.frames_rendered_in_step;
            proof {
                lemma_frames_before_increases(lengths, step as int, step + 1);
                lemma_frames_before_increases(lengths, step + 1, lengths.len() as int);
            }
            if remaining >= need as u64 {
                plan.push(
                    Segment::Render { step, start: self.frames_rendered_in_step, len: need },
                );
                self.frames_rendered_in_step = self.frames_rendered_in_step + need as u64;
                proof {
                    lemma_rendered_after_request(
                        lengths,
                        start,
                        frames as int,
                        step + 1,
                        lengths.len() as int,
                    );
                }
                need = 0;
            } else {
                if remaining > 0 {
                    plan.push(
                        Segment::Render {
                            step,
                            start: self.frames_rendered_in_step,
                            len: remaining as usize,
                        },
                    );
                }
                need = need - remaining as usize;
                self.prepare_step(step + 1);
            }
        }
        if need > 0 {
            plan.push(Segment::Silence { len: need });
        }
        proof {
            lemma_cursor_after_position(lengths, cursor, frames as int, self.cursor());
        }
        plan
    }
}

} // verus!
