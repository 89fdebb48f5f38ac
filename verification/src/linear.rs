//! The vector mathematics the evaluator rests on.
//!
//! Matrices, vectors and rotations belong to `glam`. Nothing here looks
//! inside one: each operation is a single call into that crate, and its
//! contract is taken on trust. A contract names the value that the call
//! produces, as a function of the operands, so that callers can state
//! exactly which operations were applied and in which order. No contract
//! states a number: `glam` picks its arithmetic by the machine it is built
//! for, and what is claimed is only that, in the build at hand, a result
//! depends on the operands alone.
//!
//! `glam` checks what it is handed (a rotation that is not normalized, a
//! matrix that cannot be inverted) only when it is built with one of its
//! assertion features. It is built without them here, and every call below
//! then returns for every operand.

use vstd::prelude::*;

verus! {

/// `glam::Mat4`, a 4x4 matrix in column-major order.
#[verifier::external_type_specification]
#[verifier::external_body]
pub struct ExMat4(glam::Mat4);

/// `glam::Vec3`, a vector of three components.
#[verifier::external_type_specification]
#[verifier::external_body]
pub struct ExVec3(glam::Vec3);

/// `glam::Quat`, a rotation held as a quaternion.
#[verifier::external_type_specification]
#[verifier::external_body]
pub struct ExQuat(glam::Quat);

/// `Clone for Mat4`. Trusted: the type is `Copy`, and a clone is the value
/// itself.
pub assume_specification[ <glam::Mat4 as Clone>::clone ](m: &glam::Mat4) -> (r: glam::Mat4)
    ensures
        r == *m,
;

/// `Clone for Vec3`. Trusted: the type is `Copy`, and a clone is the value
/// itself.
pub assume_specification[ <glam::Vec3 as Clone>::clone ](v: &glam::Vec3) -> (r: glam::Vec3)
    ensures
        r == *v,
;

/// `Clone for Quat`. Trusted: the type is `Copy`, and a clone is the value
/// itself.
pub assume_specification[ <glam::Quat as Clone>::clone ](q: &glam::Quat) -> (r: glam::Quat)
    ensures
        r == *q,
;

/// Whether `m` is `Mat4::IDENTITY`.
pub uninterp spec fn is_identity_matrix(m: glam::Mat4) -> bool;

/// Whether `v` is `Vec3::ONE`.
pub uninterp spec fn is_unit_scale(v: glam::Vec3) -> bool;

/// What `lhs * rhs` gives for two matrices.
pub uninterp spec fn matrix_product(lhs: glam::Mat4, rhs: glam::Mat4) -> glam::Mat4;

/// What `Mat4::inverse` gives.
pub uninterp spec fn matrix_inverse(m: glam::Mat4) -> glam::Mat4;

/// What `Mat4::transpose` gives.
pub uninterp spec fn matrix_transpose(m: glam::Mat4) -> glam::Mat4;

/// What `Mat4::from_translation` gives.
pub uninterp spec fn translation_matrix(translation: glam::Vec3) -> glam::Mat4;

/// What `Mat4::from_quat` gives.
pub uninterp spec fn rotation_matrix(rotation: glam::Quat) -> glam::Mat4;

/// What `Mat4::from_scale` gives.
pub uninterp spec fn scale_matrix(scale: glam::Vec3) -> glam::Mat4;

/// What `Mat4::to_scale_rotation_translation` gives, in that order.
pub uninterp spec fn matrix_decomposition(m: glam::Mat4) -> (glam::Vec3, glam::Quat, glam::Vec3);

/// What `Vec3::recip` gives.
pub uninterp spec fn vector_reciprocal(v: glam::Vec3) -> glam::Vec3;

/// What `Vec3::lerp` gives from `from` to `to` at the weight in `weight.x`.
pub uninterp spec fn vector_blend(from: glam::Vec3, to: glam::Vec3, weight: glam::Vec3) -> glam::Vec3;

/// What `Quat::lerp` gives from `from` to `to` at the weight in `weight.x`.
pub uninterp spec fn rotation_blend(from: glam::Quat, to: glam::Quat, weight: glam::Vec3) -> glam::Quat;

/// The identity matrix.
pub open spec fn identity_matrix() -> glam::Mat4 {
    choose|m: glam::Mat4| is_identity_matrix(m)
}

/// The scale that leaves every axis as it is.
pub open spec fn unit_scale() -> glam::Vec3 {
    choose|v: glam::Vec3| is_unit_scale(v)
}

/// `Mat4::IDENTITY`. Trusted: the constant is the one matrix that
/// `is_identity_matrix` holds of.
#[verifier::external_body]
fn mat4_identity_const() -> (r: glam::Mat4)
    ensures
        is_identity_matrix(r),
        forall|m: glam::Mat4| is_identity_matrix(m) ==> m == r,
{
    glam::Mat4::IDENTITY
}

/// `Vec3::ONE`. Trusted: the constant is the one vector that `is_unit_scale`
/// holds of.
#[verifier::external_body]
fn vec3_one_const() -> (r: glam::Vec3)
    ensures
        is_unit_scale(r),
        forall|v: glam::Vec3| is_unit_scale(v) ==> v == r,
{
    glam::Vec3::ONE
}

/// The identity matrix, as a value.
pub fn mat4_identity() -> (r: glam::Mat4)
    ensures
        r == identity_matrix(),
        is_identity_matrix(r),
{
    mat4_identity_const()
}

/// The scale of one on every axis, as a value.
pub fn vec3_one() -> (r: glam::Vec3)
    ensures
        r == unit_scale(),
        is_unit_scale(r),
{
    vec3_one_const()
}

/// `Mul for Mat4`. Trusted: the product depends on the two operands alone.
#[verifier::external_body]
pub(crate) fn mat4_mul(lhs: &glam::Mat4, rhs: &glam::Mat4) -> (r: glam::Mat4)
    ensures
        r == matrix_product(*lhs, *rhs),
{
    *lhs * *rhs
}

/// `Mat4::inverse`. Trusted: the result depends on the operand alone. For a
/// matrix that cannot be inverted the result is meaningless but still a
/// matrix.
#[verifier::external_body]
pub(crate) fn mat4_inverse(m: &glam::Mat4) -> (r: glam::Mat4)
    ensures
        r == matrix_inverse(*m),
{
    m.inverse()
}

/// `Mat4::transpose`. Trusted: the result depends on the operand alone.
#[verifier::external_body]
pub(crate) fn mat4_transpose(m: &glam::Mat4) -> (r: glam::Mat4)
    ensures
        r == matrix_transpose(*m),
{
    m.transpose()
}

/// `Mat4::from_translation`. Trusted: the result depends on the operand alone.
#[verifier::external_body]
pub(crate) fn mat4_from_translation(translation: glam::Vec3) -> (r: glam::Mat4)
    ensures
        r == translation_matrix(translation),
{
    glam::Mat4::from_translation(translation)
}

/// `Mat4::from_quat`. Trusted: the result depends on the operand alone,
/// normalized or not.
#[verifier::external_body]
pub(crate) fn mat4_from_quat(rotation: glam::Quat) -> (r: glam::Mat4)
    ensures
        r == rotation_matrix(rotation),
{
    glam::Mat4::from_quat(rotation)
}

/// `Mat4::from_scale`. Trusted: the result depends on the operand alone.
#[verifier::external_body]
pub(crate) fn mat4_from_scale(scale: glam::Vec3) -> (r: glam::Mat4)
    ensures
        r == scale_matrix(scale),
{
    glam::Mat4::from_scale(scale)
}

/// `Mat4::to_scale_rotation_translation`. Trusted: the three parts depend on
/// the matrix alone. For a matrix that is no scale, rotation and translation
/// they are meaningless but still a vector, a rotation and a vector.
#[verifier::external_body]
pub(crate) fn mat4_decompose(m: &glam::Mat4) -> (r: (glam::Vec3, glam::Quat, glam::Vec3))
    ensures
        r == matrix_decomposition(*m),
{
    m.to_scale_rotation_translation()
}

/// `Vec3::recip`, one divided by each component. Trusted: the result depends
/// on the operand alone.
#[verifier::external_body]
pub(crate) fn vec3_recip(v: glam::Vec3) -> (r: glam::Vec3)
    ensures
        r == vector_reciprocal(v),
{
    v.recip()
}

/// `Vec3::lerp`, at the weight in `weight.x`: a linear blend, component by
/// component. Trusted: the result depends on the operands alone.
#[verifier::external_body]
pub(crate) fn vec3_lerp(from: glam::Vec3, to: glam::Vec3, weight: glam::Vec3) -> (r: glam::Vec3)
    ensures
        r == vector_blend(from, to, weight),
{
    from.lerp(to, weight.x)
}

/// `Quat::lerp`, at the weight in `weight.x`: a blend along the shorter arc,
/// normalized. Trusted: the result depends on the operands alone.
#[verifier::external_body]
pub(crate) fn quat_lerp(from: glam::Quat, to: glam::Quat, weight: glam::Vec3) -> (r: glam::Quat)
    ensures
        r == rotation_blend(from, to, weight),
{
    from.lerp(to, weight.x)
}

} // verus!
