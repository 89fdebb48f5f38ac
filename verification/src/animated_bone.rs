//! A bone together with what the active clips say about it at one frame.

use vstd::prelude::*;
use crate::linear::{mat4_decompose, matrix_decomposition};
use crate::skeleton::BoneData;
use crate::transform::{composed_matrix, AnimTransform, TransformFlags};

verus! {

/// A bone of the skeleton with the transform that the clips give it, if any.
/// One is built for every bone at every frame.
#[derive(Debug, Clone)]
pub struct AnimatedBone<'a> {
    pub bone: &'a BoneData,
    /// The sampled transform of the last clip that animates this bone.
    pub anim_transform: Option<AnimTransform>,
    /// Whether the scale of the parent is cancelled for this bone.
    pub compensate_scale: bool,
    pub flags: TransformFlags,
}

/// The transform that is composed for a bone: each part comes from the
/// animation unless its flag hands it to the rest pose.
pub open spec fn adjusted_transform(
    rest: glam::Mat4,
    animated: AnimTransform,
    flags: TransformFlags,
) -> AnimTransform {
    let (rest_scale, rest_rotation, rest_translation) = matrix_decomposition(rest);
    AnimTransform {
        translation: if flags.override_translation {
            rest_translation
        } else {
            animated.translation
        },
        rotation: if flags.override_rotation {
            rest_rotation
        } else {
            animated.rotation
        },
        scale: if flags.override_scale {
            rest_scale
        } else {
            animated.scale
        },
    }
}

impl<'a> AnimatedBone<'a> {
    /// A bone that no clip has touched yet.
    pub fn new(bone: &'a BoneData) -> (r: Self)
        ensures
            r.bone == bone,
            r.anim_transform is None,
            !r.compensate_scale,
            r.flags == TransformFlags::default_flags(),
    {
        AnimatedBone {
            bone,
            anim_transform: None,
            compensate_scale: false,
            flags: TransformFlags::default(),
        }
    }

    /// The local transform of the bone at this frame.
    pub open spec fn local_matrix(self, scale_compensation: glam::Vec3) -> glam::Mat4 {
        match self.anim_transform {
            Some(animated) => composed_matrix(
                adjusted_transform(self.bone.transform, animated, self.flags),
                scale_compensation,
            ),
            None => self.bone.transform,
        }
    }

    /// The local transform of the bone: the rest pose as it stands where no
    /// clip animates the bone, and otherwise the matrix composed from the
    /// animated parts, with each overridden part taken from the rest pose.
    pub fn animated_transform(&self, scale_compensation: glam::Vec3) -> (r: glam::Mat4)
        ensures
            r == self.local_matrix(scale_compensation),
            self.anim_transform is None ==> r == self.bone.transform,
    {
        match self.anim_transform {
            Some(animated) => {
                let (rest_scale, rest_rotation, rest_translation) = mat4_decompose(
                    &self.bone.transform,
                );
                let adjusted = AnimTransform {
                    translation: if self.flags.override_translation {
                        rest_translation
                    } else {
                        animated.translation
                    },
                    rotation: if self.flags.override_rotation {
                        rest_rotation
                    } else {
                        animated.rotation
                    },
                    scale: if self.flags.override_scale {
                        rest_scale
                    } else {
                        animated.scale
                    },
                };
                adjusted.to_mat4(scale_compensation)
            },
            None => self.bone.transform,
        }
    }

    /// The local transform of the bone at rest.
    pub fn transform(&self) -> (r: glam::Mat4)
        ensures
            r == self.bone.transform,
    {
        self.bone.transform
    }
}

} // verus!
