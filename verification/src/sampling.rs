//! Sampling a track of keys at a position between two frames.

use vstd::prelude::*;
use crate::transform::AnimTransform;

verus! {

/// A position on the frame axis of a clip.
///
/// `floor` and `ceil` are the whole frames on either side of the position,
/// and they may lie before the first key or past the last one. `factor` is
/// the weight of the blend between the keys at the two: how far the position
/// lies from `floor` towards `ceil`, 0 at `floor` itself. The weight is a
/// number with a fraction, and nothing here computes with it: it travels in
/// the `x` component of a vector of `glam`, whose blends read it there.
#[derive(Debug, Clone, Copy)]
pub struct FramePosition {
    pub floor: i64,
    pub ceil: i64,
    pub factor: glam::Vec3,
}

/// The key that stands for `frame` in a track of `len` keys: the frame
/// itself, or the nearest end of the track where the frame lies outside.
pub open spec fn clamped_key(frame: i64, len: nat) -> int
    recommends
        len > 0,
{
    if frame < 0 {
        0
    } else if frame >= len {
        len - 1
    } else {
        frame as int
    }
}

/// A value that two keys of a track can be blended into.
pub trait Interpolate: Sized {
    /// The value at `weight` on the way from `self` to `other`.
    spec fn blended(&self, other: &Self, weight: glam::Vec3) -> Self;

    /// Blends `self` towards `other` by the weight held in `weight.x`.
    fn interpolate(&self, other: &Self, weight: glam::Vec3) -> (r: Self)
        ensures
            r == self.blended(other, weight),
    ;
}

impl Interpolate for bool {
    /// Booleans do not blend: the earlier key stands.
    open spec fn blended(&self, other: &Self, weight: glam::Vec3) -> Self {
        *self
    }

    fn interpolate(&self, other: &Self, weight: glam::Vec3) -> (r: Self) {
        *self
    }
}

impl Interpolate for AnimTransform {
    open spec fn blended(&self, other: &Self, weight: glam::Vec3) -> Self {
        self.blended_with(*other, weight)
    }

    fn interpolate(&self, other: &Self, weight: glam::Vec3) -> (r: Self) {
        self.blend(other, weight)
    }
}

/// The value of a track at `frame`: the key at `frame.floor` blended towards
/// the key at `frame.ceil`, each taken at the nearest end of the track where
/// it lies outside.
pub open spec fn sampled<T: Interpolate>(values: Seq<T>, frame: FramePosition) -> T
    recommends
        values.len() > 0,
{
    values[clamped_key(frame.floor, values.len())].blended(
        &values[clamped_key(frame.ceil, values.len())],
        frame.factor,
    )
}

/// The index of the key that stands for `frame` in a track of `len` keys.
pub fn key_index(frame: i64, len: usize) -> (r: usize)
    requires
        len > 0,
    ensures
        r == clamped_key(frame, len as nat),
        r < len,
        0 <= frame < len ==> r == frame,
        len == 1 ==> r == 0,
{
    if frame < 0 {
        0
    } else if frame as u64 >= len as u64 {
        len - 1
    } else {
        frame as usize
    }
}

/// Samples a track at `frame`. The track must hold a key.
pub fn frame_value<T: Interpolate>(values: &[T], frame: &FramePosition) -> (r: T)
    requires
        values.len() > 0,
    ensures
        r == sampled(values@, *frame),
        values.len() == 1 ==> r == values[0].blended(&values[0], frame.factor),
{
    let current_frame = key_index(frame.floor, values.len());
    let next_frame = key_index(frame.ceil, values.len());
    values[current_frame].interpolate(&values[next_frame], frame.factor)
}

/// Where both frames lie inside the track, the value is the blend of the
/// keys at exactly those frames.
pub proof fn lemma_between_two_keys<T: Interpolate>(values: Seq<T>, frame: FramePosition)
    requires
        0 <= frame.floor < values.len(),
        0 <= frame.ceil < values.len(),
    ensures
        sampled(values, frame) == values[frame.floor as int].blended(
            &values[frame.ceil as int],
            frame.factor,
        ),
{
}

/// A track of one key gives that key's blend with itself wherever it is
/// sampled: no frame reaches another key.
pub proof fn lemma_single_key_everywhere<T: Interpolate>(values: Seq<T>, frame: FramePosition)
    requires
        values.len() == 1,
    ensures
        clamped_key(frame.floor, values.len()) == 0,
        clamped_key(frame.ceil, values.len()) == 0,
        sampled(values, frame) == values[0].blended(&values[0], frame.factor),
{
}

/// A boolean track of one key gives that key at every frame.
pub proof fn lemma_single_boolean_key(values: Seq<bool>, frame: FramePosition)
    requires
        values.len() == 1,
    ensures
        sampled(values, frame) == values[0],
{
}

/// A boolean track gives the key at the floor of the position, clamped into
/// the track.
pub proof fn lemma_boolean_takes_floor(values: Seq<bool>, frame: FramePosition)
    requires
        values.len() > 0,
    ensures
        sampled(values, frame) == values[clamped_key(frame.floor, values.len())],
{
}

} // verus!
