//! The world transforms of a skeleton at rest, as `ssbh_data` computes them.
//!
//! `ssbh_data` walks from a bone up its chain of parents and multiplies the
//! rest transforms on the way; it gives up where the chain runs into a cycle.
//! The walk and its arithmetic are that crate's. What is decided here is
//! which bones are asked for and what stands in a slot whose bone has no
//! answer.

use vstd::prelude::*;
use crate::linear::{identity_matrix, mat4_identity};
use crate::order::chain_ends;
use crate::pose::{AnimatedWorldTransforms, AnimationTransforms};
use crate::skeleton::{BoneData, SkelData, MAX_BONE_COUNT};

verus! {

/// What `SkelData::calculate_world_transform` of `ssbh_data` gives for bone
/// `i` of a skeleton with these rest transforms and parent indices: the
/// world transform of the bone, or nothing where it reports an error.
pub uninterp spec fn chain_world_transform(
    links: Seq<(glam::Mat4, Option<usize>)>,
    i: int,
) -> Option<glam::Mat4>;

/// The rest transform and the parent index of every bone, in order.
pub open spec fn rest_links(bones: Seq<BoneData>) -> Seq<(glam::Mat4, Option<usize>)> {
    Seq::new(bones.len(), |i: int| (bones[i].transform, bones[i].parent_index))
}

/// The parent index of every bone, in order.
pub open spec fn bone_parents(bones: Seq<BoneData>) -> Seq<Option<usize>> {
    Seq::new(bones.len(), |i: int| bones[i].parent_index)
}

/// `SkelData::calculate_world_transform` of `ssbh_data` for bone `i`, on a
/// skeleton of that crate built from the bones of `skel`. Trusted: the
/// answer depends on the rest transforms and the parent indices of the
/// bones and on `i` alone; an error becomes `None`. The bones are built
/// without names and without billboarding, which the walk does not read.
///
/// Trusted too: there is an answer exactly where the chain of parents of
/// the bone ends. The walk follows the parent indices from the bone and
/// stops with an answer at a bone without a parent and at a parent index
/// that names no bone; its one error is a parent index that it meets a
/// second time, which happens exactly where the chain runs into a cycle.
#[verifier::external_body]
fn chain_world(skel: &SkelData, i: usize) -> (r: Option<glam::Mat4>)
    requires
        i < skel.bones.len(),
    ensures
        r == chain_world_transform(rest_links(skel.bones@), i as int),
        r is Some <==> chain_ends(bone_parents(skel.bones@), i as int),
{
    let bones = skel.bones.iter().map(|b| ssbh_data::skel_data::BoneData {
        name: String::new(),
        transform: b.transform.to_cols_array_2d(),
        parent_index: b.parent_index,
        billboard_type: ssbh_data::skel_data::BillboardType::Disabled,
    }).collect();
    let (major_version, minor_version) = (skel.major_version, skel.minor_version);
    let file = ssbh_data::skel_data::SkelData { major_version, minor_version, bones };
    file.calculate_world_transform(&file.bones[i]).ok().map(|t| glam::Mat4::from_cols_array_2d(&t))
}

/// The world transform that stands in slot `i` for a skeleton at rest: that
/// of bone `i` where there is such a bone and its chain of parents gives
/// one, and the identity otherwise.
pub open spec fn rest_slot(bones: Seq<BoneData>, i: int) -> glam::Mat4 {
    if i < bones.len() {
        match chain_world_transform(rest_links(bones), i) {
            Some(m) => m,
            None => identity_matrix(),
        }
    } else {
        identity_matrix()
    }
}

impl AnimationTransforms {
    /// The transforms of a skeleton at rest: the world transform of every
    /// bone that there is room for, and skinning matrices that move
    /// nothing.
    ///
    /// A bone whose chain of parents ends has the world transform that
    /// `ssbh_data` composes along the chain. A bone whose chain runs into a
    /// cycle has the identity, and so has every slot past the bones.
    pub fn from_skel(skel: &SkelData) -> (r: Self)
        ensures
            forall|i: int|
                0 <= i < MAX_BONE_COUNT ==> {
                    &&& #[trigger] r.world_transforms@[i] == rest_slot(skel.bones@, i)
                    &&& r.animated_world_transforms.transforms@[i] == identity_matrix()
                    &&& r.animated_world_transforms.transforms_inv_transpose@[i]
                        == identity_matrix()
                },
            forall|i: int|
                0 <= i < MAX_BONE_COUNT && i < skel.bones.len() ==> (chain_world_transform(
                    rest_links(skel.bones@),
                    i,
                ) is Some <==> #[trigger] chain_ends(bone_parents(skel.bones@), i)),
            forall|i: int|
                0 <= i < MAX_BONE_COUNT && i < skel.bones.len() && !chain_ends(
                    bone_parents(skel.bones@),
                    i,
                ) ==> #[trigger] r.world_transforms@[i] == identity_matrix(),
    {
        let identity = mat4_identity();
        let mut world_transforms = [identity;MAX_BONE_COUNT];
        let mut i: usize = 0;
        while i < skel.bones.len() && i < MAX_BONE_COUNT
            invariant
                i <= skel.bones.len(),
                i <= MAX_BONE_COUNT,
                identity == identity_matrix(),
                forall|j: int|
                    0 <= j < MAX_BONE_COUNT ==> #[trigger] world_transforms@[j] == if j < i {
                        rest_slot(skel.bones@, j)
                    } else {
                        identity_matrix()
                    },
                forall|j: int|
                    0 <= j < i ==> (chain_world_transform(rest_links(skel.bones@), j) is Some
                        <==> #[trigger] chain_ends(bone_parents(skel.bones@), j)),
            decreases skel.bones.len() - i,
        {
            let bone_world = match chain_world(skel, i) {
                Some(t) => t,
                None => identity,
            };
            world_transforms[i] = bone_world;
            i += 1;
        }
        AnimationTransforms {
            animated_world_transforms: AnimatedWorldTransforms {
                transforms: [identity;MAX_BONE_COUNT],
                transforms_inv_transpose: [identity;MAX_BONE_COUNT],
            },
            world_transforms,
        }
    }
}

} // verus!
