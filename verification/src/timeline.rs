//! The timeline of a track as mathematics: where each frame of the output
//! comes from, and which stretches of which steps answer a request.
//!
//! A track is reduced to the lengths of its steps in frames. Frame `p` of the
//! output lies in step `i` at offset `j` when the steps before `i` hold
//! `p - j` frames and `j` is inside step `i`; past the last step there is
//! silence.
use vstd::prelude::*;

use crate::duration::step_frames;
use crate::models::Step;

verus! {

/// One stretch of the answer to a request for frames.
#[derive(Clone, Copy, Debug, PartialEq, Eq, Structural)]
pub enum Segment {
    /// `len` frames of step `step`, the first of them `start` frames into it.
    Render { step: usize, start: u64, len: usize },
    /// `len` frames of silence.
    Silence { len: usize },
}

/// The length in frames of every step, at the track's sample rate.
pub open spec fn step_lengths(steps: Seq<Step>, sample_rate: u32) -> Seq<nat> {
    Seq::new(steps.len(), |i: int| step_frames(steps[i].duration, sample_rate) as nat)
}

/// The lengths can be held by the machine: the step count fits `usize` and
/// every length fits `u64`.
pub open spec fn machine_sized(lengths: Seq<nat>) -> bool {
    &&& lengths.len() <= usize::MAX
    &&& forall|i: int| 0 <= i < lengths.len() ==> #[trigger] lengths[i] <= u64::MAX
}

/// The frames held by the first `k` steps together.
pub open spec fn frames_before(lengths: Seq<nat>, k: int) -> nat
    decreases k,
{
    if k <= 0 {
        0
    } else {
        frames_before(lengths, k - 1) + lengths[k - 1]
    }
}

/// The frames of the whole track.
pub open spec fn total_frames(lengths: Seq<nat>) -> nat {
    frames_before(lengths, lengths.len() as int)
}

/// Frame `position` of the output is frame `offset` of step `step`.
pub open spec fn frame_is(lengths: Seq<nat>, position: int, step: int, offset: int) -> bool {
    &&& 0 <= step < lengths.len()
    &&& 0 <= offset < lengths[step]
    &&& frames_before(lengths, step) + offset == position
}

/// Where the request `[position, position + count)` enters step `step`.
pub open spec fn overlap_start(lengths: Seq<nat>, position: int, step: int) -> int {
    if position >= frames_before(lengths, step) {
        position
    } else {
        frames_before(lengths, step) as int
    }
}

/// Where the request `[position, position + count)` leaves step `step`.
pub open spec fn overlap_end(lengths: Seq<nat>, position: int, count: int, step: int) -> int {
    if position + count <= frames_before(lengths, step + 1) {
        position + count
    } else {
        frames_before(lengths, step + 1) as int
    }
}

/// The request `[position, position + count)` reaches into step `step`.
pub open spec fn overlaps(lengths: Seq<nat>, position: int, count: int, step: int) -> bool {
    overlap_start(lengths, position, step) < overlap_end(lengths, position, count, step)
}

/// The stretch of step `step` that the request asks for.
pub open spec fn step_segment(lengths: Seq<nat>, position: int, count: int, step: int) -> Segment {
    Segment::Render {
        step: step as usize,
        start: (overlap_start(lengths, position, step) - frames_before(lengths, step)) as u64,
        len: (overlap_end(lengths, position, count, step) - overlap_start(
            lengths,
            position,
            step,
        )) as usize,
    }
}

/// What the first `k` steps contribute to the request: for each step that the
/// request reaches into, in order, the stretch it asks of that step.
pub open spec fn rendered(lengths: Seq<nat>, position: int, count: int, k: int) -> Seq<Segment>
    decreases k,
{
    if k <= 0 {
        Seq::empty()
    } else {
        let earlier = rendered(lengths, position, count, k - 1);
        if overlaps(lengths, position, count, k - 1) {
            earlier.push(step_segment(lengths, position, count, k - 1))
        } else {
            earlier
        }
    }
}

/// The frames of silence that close the answer: the part of the request that
/// lies past the end of the track.
pub open spec fn silent_frames(lengths: Seq<nat>, position: int, count: int) -> int {
    if position + count <= total_frames(lengths) {
        0
    } else if position >= total_frames(lengths) {
        count
    } else {
        position + count - total_frames(lengths)
    }
}

/// The answer to a request for `count` frames made at frame `position`: one
/// stretch for every step the request reaches into, each step rendered from
/// where the request enters it, then silence for what the track cannot give.
pub open spec fn plan_of(lengths: Seq<nat>, position: int, count: int) -> Seq<Segment> {
    let steps = rendered(lengths, position, count, lengths.len() as int);
    if silent_frames(lengths, position, count) > 0 {
        steps.push(Segment::Silence { len: silent_frames(lengths, position, count) as usize })
    } else {
        steps
    }
}

/// The frames that a stretch stands for: `Some((step, offset))` for a frame of
/// a step, `None` for a silent one.
pub open spec fn segment_frames(segment: Segment) -> Seq<Option<(int, int)>> {
    match segment {
        Segment::Render { step, start, len } => Seq::new(
            len as nat,
            |k: int| Some((step as int, start + k)),
        ),
        Segment::Silence { len } => Seq::new(len as nat, |k: int| None),
    }
}

/// The frames that a plan stands for, stretch after stretch.
pub open spec fn plan_frames(plan: Seq<Segment>) -> Seq<Option<(int, int)>>
    decreases plan.len(),
{
    if plan.len() == 0 {
        Seq::empty()
    } else {
        plan_frames(plan.drop_last()) + segment_frames(plan.last())
    }
}

/// The number of frames in a plan that are not silence.
pub open spec fn rendered_frames(plan: Seq<Segment>) -> nat
    decreases plan.len(),
{
    if plan.len() == 0 {
        0
    } else {
        rendered_frames(plan.drop_last()) + match plan.last() {
            Segment::Render { len, .. } => len as nat,
            Segment::Silence { .. } => 0,
        }
    }
}

/// The frames that the first `k` steps hold of the request.
pub open spec fn covered(lengths: Seq<nat>, position: int, count: int, k: int) -> int {
    if frames_before(lengths, k) <= position {
        0
    } else if position + count <= frames_before(lengths, k) {
        count
    } else {
        frames_before(lengths, k) - position
    }
}

/// The frames of the track that lie behind a cursor, given as the index of a
/// step and the frames of that step already rendered.
pub open spec fn cursor_position(lengths: Seq<nat>, cursor: (int, int)) -> int {
    frames_before(lengths, cursor.0) + cursor.1
}

/// The cursor is inside a step of the track, at most at its end, or just past
/// the last step.
pub open spec fn cursor_in_track(lengths: Seq<nat>, cursor: (int, int)) -> bool {
    &&& 0 <= cursor.0 <= lengths.len()
    &&& cursor.0 < lengths.len() ==> 0 <= cursor.1 <= lengths[cursor.0]
    &&& cursor.0 == lengths.len() ==> cursor.1 == 0
}

/// `after` is where the cursor stands once a request for `count` frames has
/// been answered from `before`: unmoved by an empty request, just behind the
/// last frame handed out where the track could fill the request, and past
/// the last step where it could not.
pub open spec fn cursor_after(
    lengths: Seq<nat>,
    before: (int, int),
    count: int,
    after: (int, int),
) -> bool {
    let position = cursor_position(lengths, before);
    if count == 0 {
        after == before
    } else if position + count <= total_frames(lengths) {
        after.1 >= 1 && frame_is(lengths, position + count - 1, after.0, after.1 - 1)
    } else {
        after == (lengths.len() as int, 0int)
    }
}

/// The sum of a sequence of request sizes.
pub open spec fn requested(requests: Seq<nat>) -> nat
    decreases requests.len(),
{
    if requests.len() == 0 {
        0
    } else {
        requested(requests.drop_last()) + requests.last()
    }
}

/// The position that a sequence of requests, answered one after the other
/// from the start of the track, leaves the cursor at.
pub open spec fn position_after(lengths: Seq<nat>, requests: Seq<nat>) -> int
    decreases requests.len(),
{
    if requests.len() == 0 {
        0
    } else {
        let position = position_after(lengths, requests.drop_last());
        position + requests.last() - silent_frames(lengths, position, requests.last() as int)
    }
}

/// The frames other than silence in the answers to a sequence of requests,
/// answered one after the other from the start of the track.
pub open spec fn frames_rendered(lengths: Seq<nat>, requests: Seq<nat>) -> nat
    decreases requests.len(),
{
    if requests.len() == 0 {
        0
    } else {
        frames_rendered(lengths, requests.drop_last()) + rendered_frames(
            plan_of(
                lengths,
                position_after(lengths, requests.drop_last()),
                requests.last() as int,
            ),
        )
    }
}

/// The step lengths of a track that is held in memory are machine sized.
pub proof fn lemma_step_lengths_machine_sized(steps: Seq<Step>, sample_rate: u32)
    requires
        steps.len() <= usize::MAX,
    ensures
        machine_sized(step_lengths(steps, sample_rate)),
{
}

/// Later steps start later.
pub proof fn lemma_frames_before_increases(lengths: Seq<nat>, i: int, j: int)
    requires
        i <= j,
    ensures
        frames_before(lengths, i) <= frames_before(lengths, j),
    decreases j - i,
{
    if i < j {
        lemma_frames_before_increases(lengths, i, j - 1);
    }
}

/// A frame of the output lies in one step, at one offset.
pub proof fn lemma_frame_unique(
    lengths: Seq<nat>,
    position: int,
    step_a: int,
    offset_a: int,
    step_b: int,
    offset_b: int,
)
    requires
        frame_is(lengths, position, step_a, offset_a),
        frame_is(lengths, position, step_b, offset_b),
    ensures
        step_a == step_b,
        offset_a == offset_b,
{
    if step_a < step_b {
        lemma_frames_before_increases(lengths, step_a + 1, step_b);
    }
    if step_b < step_a {
        lemma_frames_before_increases(lengths, step_b + 1, step_a);
    }
}

/// A frame that lies in a step lies inside the track.
pub proof fn lemma_frame_in_track(lengths: Seq<nat>, position: int, step: int, offset: int)
    requires
        frame_is(lengths, position, step, offset),
    ensures
        0 <= position < total_frames(lengths),
{
    lemma_frames_before_increases(lengths, step + 1, lengths.len() as int);
}

/// A cursor in the track is not past the track's end.
pub proof fn lemma_cursor_position_in_track(lengths: Seq<nat>, cursor: (int, int))
    requires
        cursor_in_track(lengths, cursor),
    ensures
        0 <= cursor_position(lengths, cursor) <= total_frames(lengths),
{
    if cursor.0 < lengths.len() {
        lemma_frames_before_increases(lengths, cursor.0 + 1, lengths.len() as int);
    }
}

/// Steps that end at or before the request contribute nothing to it.
pub proof fn lemma_rendered_before_request(lengths: Seq<nat>, position: int, count: int, k: int)
    requires
        frames_before(lengths, k) <= position,
    ensures
        rendered(lengths, position, count, k) == Seq::<Segment>::empty(),
    decreases k,
{
    if k > 0 {
        lemma_frames_before_increases(lengths, k - 1, k);
        lemma_rendered_before_request(lengths, position, count, k - 1);
    }
}

/// Steps that start at or after the end of the request contribute nothing.
pub proof fn lemma_rendered_after_request(
    lengths: Seq<nat>,
    position: int,
    count: int,
    k: int,
    m: int,
)
    requires
        0 <= k <= m,
        position + count <= frames_before(lengths, k) || count <= 0,
    ensures
        rendered(lengths, position, count, m) == rendered(lengths, position, count, k),
    decreases m - k,
{
    if k < m {
        lemma_rendered_after_request(lengths, position, count, k, m - 1);
        lemma_frames_before_increases(lengths, k, m - 1);
        lemma_frames_before_increases(lengths, m - 1, m);
    }
}

/// Appending a stretch to a plan appends its frames.
pub proof fn lemma_plan_frames_push(plan: Seq<Segment>, segment: Segment)
    ensures
        plan_frames(plan.push(segment)) == plan_frames(plan) + segment_frames(segment),
        rendered_frames(plan.push(segment)) == rendered_frames(plan) + match segment {
            Segment::Render { len, .. } => len as nat,
            Segment::Silence { .. } => 0,
        },
{
    assert(plan.push(segment).drop_last() == plan);
}

/// The stretches of the first `k` steps stand for the first frames of the
/// request, each frame of the output at its place in its step.
pub proof fn lemma_rendered_frames(lengths: Seq<nat>, position: int, count: int, k: int)
    requires
        machine_sized(lengths),
        0 <= position,
        0 <= count <= usize::MAX,
        0 <= k <= lengths.len(),
    ensures
        plan_frames(rendered(lengths, position, count, k)).len() == covered(
            lengths,
            position,
            count,
            k,
        ),
        rendered_frames(rendered(lengths, position, count, k)) == covered(
            lengths,
            position,
            count,
            k,
        ),
        forall|j: int|
            0 <= j < covered(lengths, position, count, k) ==> (#[trigger] plan_frames(
                rendered(lengths, position, count, k),
            )[j] matches Some(frame) && frame.0 < k && frame_is(
                lengths,
                position + j,
                frame.0,
                frame.1,
            )),
    decreases k,
{
    if k > 0 {
        let earlier = rendered(lengths, position, count, k - 1);
        lemma_rendered_frames(lengths, position, count, k - 1);
        lemma_frames_before_increases(lengths, k - 1, k);
        if overlaps(lengths, position, count, k - 1) {
            let segment = step_segment(lengths, position, count, k - 1);
            lemma_plan_frames_push(earlier, segment);
            let low = overlap_start(lengths, position, k - 1);
            let high = overlap_end(lengths, position, count, k - 1);
            let before = covered(lengths, position, count, k - 1);
            assert(position + before == low);
            assert(segment_frames(segment).len() == high - low);
            let frames = plan_frames(rendered(lengths, position, count, k));
            assert(frames == plan_frames(earlier) + segment_frames(segment));
            assert forall|j: int| 0 <= j < covered(lengths, position, count, k) implies (
            #[trigger] frames[j] matches Some(frame) && frame.0 < k && frame_is(
                lengths,
                position + j,
                frame.0,
                frame.1,
            )) by {
                if j >= before {
                    assert(frames[j] == segment_frames(segment)[j - before]);
                    assert(frames[j] == Some(
                        (k - 1, low - frames_before(lengths, k - 1) + (j - before)),
                    ));
                } else {
                    assert(frames[j] == plan_frames(earlier)[j]);
                }
            }
        }
    }
}

/// What a request is answered with, frame by frame: frame `j` of the answer
/// is the frame of the track at `position + j`, taken from the step it lies
/// in at its offset there, and silence past the end of the track. The answer
/// has exactly `count` frames.
pub proof fn lemma_plan_frames(lengths: Seq<nat>, position: int, count: int)
    requires
        machine_sized(lengths),
        0 <= position,
        0 <= count <= usize::MAX,
    ensures
        plan_frames(plan_of(lengths, position, count)).len() == count,
        forall|j: int|
            0 <= j < count ==> match #[trigger] plan_frames(plan_of(lengths, position, count))[j] {
                Some(frame) => frame_is(lengths, position + j, frame.0, frame.1),
                None => position + j >= total_frames(lengths),
            },
{
    let steps = rendered(lengths, position, count, lengths.len() as int);
    lemma_rendered_frames(lengths, position, count, lengths.len() as int);
    let silent = silent_frames(lengths, position, count);
    if silent > 0 {
        lemma_plan_frames_push(steps, Segment::Silence { len: silent as usize });
    }
}

/// The frames of the answer to one request that are not silence are those
/// that the track still had to give.
pub proof fn lemma_plan_rendered_frames(lengths: Seq<nat>, position: int, count: int)
    requires
        machine_sized(lengths),
        0 <= position,
        0 <= count <= usize::MAX,
    ensures
        rendered_frames(plan_of(lengths, position, count)) == count - silent_frames(
            lengths,
            position,
            count,
        ),
{
    let steps = rendered(lengths, position, count, lengths.len() as int);
    lemma_rendered_frames(lengths, position, count, lengths.len() as int);
    let silent = silent_frames(lengths, position, count);
    if silent > 0 {
        lemma_plan_frames_push(steps, Segment::Silence { len: silent as usize });
    }
}

/// Splitting a request changes no frame: a request for `first` frames
/// followed by one for `second` frames, made where the first left off, is
/// answered with the frames of a single request for `first + second`.
pub proof fn lemma_split_request(lengths: Seq<nat>, position: int, first: int, second: int)
    requires
        machine_sized(lengths),
        0 <= position <= total_frames(lengths),
        0 <= first,
        0 <= second,
        first + second <= usize::MAX,
    ensures
        plan_frames(plan_of(lengths, position, first)) + plan_frames(
            plan_of(
                lengths,
                if position + first <= total_frames(lengths) {
                    position + first
                } else {
                    total_frames(lengths) as int
                },
                second,
            ),
        ) == plan_frames(plan_of(lengths, position, first + second)),
{
    let middle = if position + first <= total_frames(lengths) {
        position + first
    } else {
        total_frames(lengths) as int
    };
    let head = plan_frames(plan_of(lengths, position, first));
    let tail = plan_frames(plan_of(lengths, middle, second));
    let whole = plan_frames(plan_of(lengths, position, first + second));
    lemma_plan_frames(lengths, position, first);
    lemma_plan_frames(lengths, middle, second);
    lemma_plan_frames(lengths, position, first + second);
    assert forall|j: int| 0 <= j < first + second implies (head + tail)[j] == whole[j] by {
        let split = (head + tail)[j];
        let joined = whole[j];
        if j < first {
            assert(split == head[j]);
        } else {
            assert(split == tail[j - first]);
        }
        match (split, joined) {
            (Some(a), Some(b)) => {
                if j >= first {
                    lemma_frame_in_track(lengths, middle + (j - first), a.0, a.1);
                }
                lemma_frame_unique(lengths, position + j, a.0, a.1, b.0, b.1);
            },
            (Some(a), None) => {
                if j < first {
                    lemma_frame_in_track(lengths, position + j, a.0, a.1);
                } else {
                    lemma_frame_in_track(lengths, middle + (j - first), a.0, a.1);
                }
            },
            (None, Some(b)) => {
                lemma_frame_in_track(lengths, position + j, b.0, b.1);
            },
            (None, None) => {},
        }
    }
    assert(head + tail =~= whole);
}

/// The shape of what the first `k` steps contribute to a request.
proof fn lemma_rendered_shape(lengths: Seq<nat>, position: int, count: int, k: int)
    requires
        machine_sized(lengths),
        0 <= position,
        0 <= count <= usize::MAX,
        0 <= k <= lengths.len(),
    ensures
        forall|i: int|
            0 <= i < rendered(lengths, position, count, k).len() ==> (#[trigger] rendered(
                lengths,
                position,
                count,
                k,
            )[i] matches Segment::Render { step, start, len } && step < k && len > 0 && start
                + len <= lengths[step as int] && (start == 0 || frames_before(
                lengths,
                step as int,
            ) + start == position)),
        forall|i: int, j: int|
            0 <= i < j < rendered(lengths, position, count, k).len() ==> (#[trigger] rendered(
                lengths,
                position,
                count,
                k,
            )[i] matches Segment::Render { step: earlier, .. } && #[trigger] rendered(
                lengths,
                position,
                count,
                k,
            )[j] matches Segment::Render { step: later, .. } && earlier < later),
    decreases k,
{
    if k > 0 {
        lemma_rendered_shape(lengths, position, count, k - 1);
        lemma_frames_before_increases(lengths, k - 1, k);
    }
}

/// The shape of an answer. Every stretch is non-empty. The stretches of
/// steps come first, in the order of the steps and at most one for a step,
/// each inside its step; a stretch of silence comes last. A step is rendered
/// from its first frame unless the request begins inside it: the generators
/// of a step that the request enters are built afresh.
pub proof fn lemma_plan_shape(lengths: Seq<nat>, position: int, count: int)
    requires
        machine_sized(lengths),
        0 <= position,
        0 <= count <= usize::MAX,
    ensures
        forall|i: int|
            0 <= i < plan_of(lengths, position, count).len() ==> match #[trigger] plan_of(
                lengths,
                position,
                count,
            )[i] {
                Segment::Render { step, start, len } => step < lengths.len() && len > 0 && start
                    + len <= lengths[step as int] && (start == 0 || frames_before(
                    lengths,
                    step as int,
                ) + start == position),
                Segment::Silence { len } => len > 0 && i == plan_of(lengths, position, count).len()
                    - 1,
            },
        forall|i: int, j: int|
            0 <= i < j < plan_of(lengths, position, count).len() ==> (#[trigger] plan_of(
                lengths,
                position,
                count,
            )[i] matches Segment::Render { step: earlier, .. } && (#[trigger] plan_of(
                lengths,
                position,
                count,
            )[j] matches Segment::Render { step: later, .. } ==> earlier < later)),
{
    lemma_rendered_shape(lengths, position, count, lengths.len() as int);
}

/// The step lengths, the cursor and the size of a request leave one place for
/// the cursor to stand afterwards. The answer itself is `plan_of`, a function
/// of the same three: equal tracks asked in equal ways answer alike.
pub proof fn lemma_cursor_after_unique(
    lengths: Seq<nat>,
    before: (int, int),
    count: int,
    first: (int, int),
    second: (int, int),
)
    requires
        cursor_after(lengths, before, count, first),
        cursor_after(lengths, before, count, second),
    ensures
        first == second,
{
    let position = cursor_position(lengths, before);
    if count != 0 && position + count <= total_frames(lengths) {
        lemma_frame_unique(
            lengths,
            position + count - 1,
            first.0,
            first.1 - 1,
            second.0,
            second.1 - 1,
        );
    }
}

/// A request moves the cursor forward by the frames the track could give
/// and by no more, and leaves it in the track.
pub proof fn lemma_cursor_after_position(
    lengths: Seq<nat>,
    before: (int, int),
    count: int,
    after: (int, int),
)
    requires
        cursor_in_track(lengths, before),
        0 <= count,
        cursor_after(lengths, before, count, after),
    ensures
        cursor_in_track(lengths, after),
        cursor_position(lengths, after) == cursor_position(lengths, before) + count
            - silent_frames(lengths, cursor_position(lengths, before), count),
{
    lemma_cursor_position_in_track(lengths, before);
}

/// Past the end of the track a request is answered with silence alone, and
/// the cursor stays past the last step.
pub proof fn lemma_exhausted_is_silent(lengths: Seq<nat>, position: int, count: int)
    requires
        position >= total_frames(lengths),
        0 <= count,
    ensures
        plan_of(lengths, position, count) == (if count > 0 {
            seq![Segment::Silence { len: count as usize }]
        } else {
            Seq::<Segment>::empty()
        }),
        forall|after: (int, int)|
            cursor_after(lengths, (lengths.len() as int, 0int), count, after) ==> after == (
                lengths.len() as int,
                0int,
            ),
{
    lemma_rendered_before_request(lengths, position, count, lengths.len() as int);
    if count > 0 {
        assert(Seq::<Segment>::empty().push(Segment::Silence { len: count as usize })
            == seq![Segment::Silence { len: count as usize }]);
    }
}

/// However a track is asked for, the frames handed out that are not silence
/// are the frames asked for, up to the frames of the track. Once as many
/// frames have been asked for as the track holds, exactly the frames of the
/// track, the sum of the lengths of its steps, have been rendered.
pub proof fn lemma_frame_accounting(lengths: Seq<nat>, requests: Seq<nat>)
    requires
        machine_sized(lengths),
        forall|i: int| 0 <= i < requests.len() ==> #[trigger] requests[i] <= usize::MAX,
    ensures
        frames_rendered(lengths, requests) == position_after(lengths, requests),
        frames_rendered(lengths, requests) == (if requested(requests) <= total_frames(lengths) {
            requested(requests)
        } else {
            total_frames(lengths)
        }),
    decreases requests.len(),
{
    if requests.len() > 0 {
        lemma_frame_accounting(lengths, requests.drop_last());
        lemma_plan_rendered_frames(
            lengths,
            position_after(lengths, requests.drop_last()),
            requests.last() as int,
        );
    }
}

} // verus!
