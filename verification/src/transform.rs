//! Decomposed transforms and their composition into a matrix.

use vstd::prelude::*;
use crate::linear::{
    mat4_from_quat, mat4_from_scale, mat4_from_translation, mat4_mul, matrix_product, quat_lerp,
    rotation_blend, rotation_matrix, scale_matrix, translation_matrix, vec3_lerp, vector_blend,
};

verus! {

/// A transform in decomposed form, as tracks hold it and as it is blended.
#[derive(Debug, Clone, Copy)]
pub struct AnimTransform {
    pub translation: glam::Vec3,
    pub rotation: glam::Quat,
    pub scale: glam::Vec3,
}

/// Which parts of an animated transform give way to the rest pose.
#[derive(Debug, Clone, Copy, PartialEq, Eq)]
pub struct TransformFlags {
    pub override_translation: bool,
    pub override_rotation: bool,
    pub override_scale: bool,
    pub override_compensate_scale: bool,
}

/// The matrix that applies `transform`'s scale, then its rotation, then the
/// compensation scale, then its translation.
pub open spec fn composed_matrix(transform: AnimTransform, scale_compensation: glam::Vec3) -> glam::Mat4 {
    matrix_product(
        matrix_product(
            matrix_product(
                translation_matrix(transform.translation),
                scale_matrix(scale_compensation),
            ),
            rotation_matrix(transform.rotation),
        ),
        scale_matrix(transform.scale),
    )
}

impl TransformFlags {
    /// No part is overridden.
    pub open spec fn default_flags() -> TransformFlags {
        TransformFlags {
            override_translation: false,
            override_rotation: false,
            override_scale: false,
            override_compensate_scale: false,
        }
    }
}

impl Default for TransformFlags {
    /// No part is overridden.
    fn default() -> (r: Self)
        ensures
            r == TransformFlags::default_flags(),
    {
        TransformFlags {
            override_translation: false,
            override_rotation: false,
            override_scale: false,
            override_compensate_scale: false,
        }
    }
}

impl AnimTransform {
    /// What blending `self` towards `other` gives: translation and scale
    /// component by component, the rotation along the shorter arc.
    pub open spec fn blended_with(self, other: AnimTransform, weight: glam::Vec3) -> AnimTransform {
        AnimTransform {
            translation: vector_blend(self.translation, other.translation, weight),
            rotation: rotation_blend(self.rotation, other.rotation, weight),
            scale: vector_blend(self.scale, other.scale, weight),
        }
    }

    /// Composes the matrix of this transform. The order of application is
    /// scale, rotation, scale compensation, translation.
    pub fn to_mat4(self, scale_compensation: glam::Vec3) -> (r: glam::Mat4)
        ensures
            r == composed_matrix(self, scale_compensation),
    {
        let translation = mat4_from_translation(self.translation);
        let rotation = mat4_from_quat(self.rotation);
        let scale = mat4_from_scale(self.scale);
        let compensation = mat4_from_scale(scale_compensation);
        let moved = mat4_mul(&translation, &compensation);
        let turned = mat4_mul(&moved, &rotation);
        mat4_mul(&turned, &scale)
    }

    /// Blends `self` towards `other` by the weight held in `weight.x`.
    pub fn blend(&self, other: &AnimTransform, weight: glam::Vec3) -> (r: AnimTransform)
        ensures
            r == self.blended_with(*other, weight),
    {
        AnimTransform {
            translation: vec3_lerp(self.translation, other.translation, weight),
            rotation: quat_lerp(self.rotation, other.rotation, weight),
            scale: vec3_lerp(self.scale, other.scale, weight),
        }
    }
}

} // verus!
