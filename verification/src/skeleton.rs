//! The rest pose: bones, their parent links and their resting transforms.

use vstd::prelude::*;

verus! {

/// The number of bones that the output buffers have room for. Bones past it
/// are not evaluated.
pub const MAX_BONE_COUNT: usize = 512;

/// How a bone turns towards the camera. The pose evaluator carries it and
/// does not read it.
#[derive(Debug, Clone, Copy, PartialEq, Eq)]
pub enum BillboardType {
    Disabled,
    XAxisViewPointAligned,
    YAxisViewPointAligned,
    Unk3,
    XYAxisViewPointAligned,
    YAxisViewPlaneAligned,
    XYAxisViewPlaneAligned,
}

/// One bone of a skeleton in its rest pose.
#[derive(Debug, Clone)]
pub struct BoneData {
    /// The bone's name, by which tracks and constraints find it.
    pub name: String,
    /// The transform relative to the parent bone, at rest.
    pub transform: glam::Mat4,
    /// The position of the parent in the skeleton's list of bones.
    pub parent_index: Option<usize>,
    pub billboard_type: BillboardType,
}

/// A skeleton in its rest pose.
#[derive(Debug, Clone)]
pub struct SkelData {
    pub major_version: u16,
    pub minor_version: u16,
    pub bones: Vec<BoneData>,
}

} // verus!
