//! Pose evaluation for skinned skeletons: a parent-before-child evaluation
//! order, keyframe sampling, transform composition with override and scale
//! compensation flags, and a two-pass walk that applies orientation and aim
//! constraints. Matrices, vectors and rotations are values of `glam`; they
//! are carried through unread, and every operation on them is a call into
//! that crate.
//!
//! `glam` has to be built without its assertion features, `glam-assert` and
//! `debug-glam-assert`, as it is by default: with one of them some of its
//! functions panic on operands that the functions here accept.

pub mod linear;
pub mod skeleton;
pub mod transform;
pub mod animated_bone;
pub mod order;
pub mod sampling;
pub mod clip;
pub mod visibility;
pub mod constraints;
pub mod pose;
pub mod bone_index;
pub mod pose_lemmas;
pub mod rest_pose;
