//! Laying out two channels of samples as interleaved frames. The functions
//! move samples and never look at them, so they take samples of any type.
use vstd::arithmetic::div_mod::{lemma_fundamental_div_mod, lemma_fundamental_div_mod_converse};
use vstd::prelude::*;

verus! {

/// The shorter of two lengths.
pub open spec fn shorter(a: nat, b: nat) -> nat {
    if a <= b {
        a
    } else {
        b
    }
}

/// Interleaves two channels into stereo frames: sample `i` of `left`, then
/// sample `i` of `right`, for every `i` that both channels have.
pub fn interleave<T: Copy>(left: &[T], right: &[T]) -> (samples: Vec<T>)
    ensures
        samples@.len() == 2 * shorter(left@.len(), right@.len()),
        forall|i: int|
            0 <= i < shorter(left@.len(), right@.len()) ==> samples@[2 * i] == left@[i]
                && samples@[2 * i + 1] == right@[i],
{
    let frames = if left.len() <= right.len() {
        left.len()
    } else {
        right.len()
    };
    let mut samples: Vec<T> = Vec::new();
    let mut i: usize = 0;
    while i < frames
        invariant
            i <= frames,
            frames == shorter(left@.len(), right@.len()),
            samples@.len() == 2 * i,
            forall|k: int|
                0 <= k < i ==> samples@[2 * k] == left@[k] && samples@[2 * k + 1] == right@[k],
        decreases frames - i,
    {
        samples.push(left[i]);
        samples.push(right[i]);
        i += 1;
    }
    samples
}

/// The whole frames of `channels` samples in a buffer of `len` samples.
pub open spec fn whole_frames(len: int, channels: int) -> int {
    len / channels
}

/// What [`write_frames`] leaves at index `index` of a buffer of `len`
/// samples in frames of `channels` samples: in every whole frame the left
/// sample in channel 0 and the right sample in channel 1, and what was there
/// before in the other channels and behind the last whole frame.
pub open spec fn written<T>(
    before: T,
    len: int,
    channels: int,
    left: Seq<T>,
    right: Seq<T>,
    index: int,
) -> T {
    if index / channels < whole_frames(len, channels) && index % channels == 0 {
        left[index / channels]
    } else if index / channels < whole_frames(len, channels) && index % channels == 1 {
        right[index / channels]
    } else {
        before
    }
}

/// Writes two channels into a buffer of interleaved frames of `channels`
/// samples each: the left channel into channel 0 and, where there is one,
/// the right channel into channel 1. Further channels, and samples behind
/// the last whole frame, are left as they are.
pub fn write_frames<T: Copy>(data: &mut [T], channels: usize, left: &[T], right: &[T])
    requires
        channels >= 1,
        left@.len() >= whole_frames(old(data)@.len() as int, channels as int),
        right@.len() >= whole_frames(old(data)@.len() as int, channels as int),
    ensures
        final(data)@.len() == old(data)@.len(),
        forall|index: int|
            0 <= index < old(data)@.len() ==> final(data)@[index] == written(
                old(data)@[index],
                old(data)@.len() as int,
                channels as int,
                left@,
                right@,
                index,
            ),
{
    let len = data.len();
    let frames = len / channels;
    let ghost before = data@;
    let mut i: usize = 0;
    proof {
        lemma_fundamental_div_mod(len as int, channels as int);
    }
    while i < frames
        invariant
            channels >= 1,
            i <= frames,
            frames == whole_frames(len as int, channels as int),
            frames * channels <= len,
            len == before.len(),
            data@.len() == len,
            left@.len() >= frames,
            right@.len() >= frames,
            forall|index: int|
                0 <= index < len ==> data@[index] == (if index / (channels as int) < i {
                    written(before[index], len as int, channels as int, left@, right@, index)
                } else {
                    before[index]
                }),
        decreases frames - i,
    {
        proof {
            assert((i + 1) * channels <= frames * channels) by (nonlinear_arith)
                requires
                    i + 1 <= frames,
                    channels >= 1,
            ;
            assert((i + 1) * channels == i * channels + channels) by (nonlinear_arith);
            lemma_fundamental_div_mod_converse(i * channels, channels as int, i as int, 0);
            if channels > 1 {
                lemma_fundamental_div_mod_converse(i * channels + 1, channels as int, i as int, 1);
            }
        }
        let base = i * channels;
        let ghost previous = data@;
        data[base] = left[i];
        if channels > 1 {
            data[base + 1] = right[i];
        }
        proof {
            assert forall|index: int| 0 <= index < len implies data@[index] == (if index / (
            channels as int) < i + 1 {
                written(before[index], len as int, channels as int, left@, right@, index)
            } else {
                before[index]
            }) by {
                lemma_fundamental_div_mod(index, channels as int);
                assert((channels as int) * (i as int) == base) by (nonlinear_arith)
                    requires
                        base == i * channels,
                ;
                if index / (channels as int) == i {
                    if index % (channels as int) == 0 {
                        assert(index == base);
                    } else if index % (channels as int) == 1 {
                        assert(index == base + 1);
                    } else {
                        assert(data@[index] == previous[index]);
                    }
                } else {
                    assert(index != base);
                    assert(channels > 1 ==> index != base + 1);
                    assert(data@[index] == previous[index]);
                }
            }
        }
        i += 1;
    }
}

} // verus!
