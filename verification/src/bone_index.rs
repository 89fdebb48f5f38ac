//! Bone indices as the skeleton shader reads them.

use vstd::prelude::*;
use crate::skeleton::{BoneData, SkelData};

verus! {

/// The indices that the shader is given for one bone: the bone's own index,
/// the index of its parent, and two unused slots.
#[derive(Debug, Clone, Copy, PartialEq)]
pub struct PerBone {
    pub index: [i32; 4],
}

/// The index that stands for a parent in a shader: the parent's index cut to
/// 32 bits, or -1 for no parent.
pub open spec fn shader_index(index: Option<usize>) -> i32 {
    match index {
        Some(i) => i as i32,
        None => -1i32,
    }
}

/// The parent index as shaders read it: -1 stands for no parent.
pub fn parent_index(index: Option<usize>) -> (r: i32)
    ensures
        r == shader_index(index),
        index is None ==> r == -1,
        index is Some && index->0 <= i32::MAX ==> r == index->0,
{
    match index {
        Some(i) => #[verifier::truncate]
        (i as i32),
        None => -1,
    }
}

/// The shader indices of the bone at position `i` of its skeleton.
pub fn per_bone(i: usize, bone: &BoneData) -> (r: PerBone)
    ensures
        r.index@ == seq![shader_index(Some(i)), shader_index(bone.parent_index), -1i32, -1i32],
{
    let own = parent_index(Some(i));
    let parent = parent_index(bone.parent_index);
    let r = PerBone { index: [own, parent, -1, -1] };
    assert(r.index@ =~= seq![shader_index(Some(i)), shader_index(bone.parent_index), -1i32, -1i32]);
    r
}

/// Whether `k` is the first bone of the skeleton with this name.
pub open spec fn is_first_bone_named(bones: Seq<BoneData>, name: Seq<char>, k: int) -> bool {
    &&& 0 <= k < bones.len()
    &&& bones[k].name@ == name
    &&& forall|j: int| 0 <= j < k ==> (#[trigger] bones[j]).name@ != name
}

/// The position of the first bone of the skeleton with this name.
pub fn bone_position(skel: &SkelData, name: &String) -> (r: Option<usize>)
    ensures
        match r {
            Some(k) => is_first_bone_named(skel.bones@, name@, k as int),
            None => forall|k: int| 0 <= k < skel.bones.len() ==> (#[trigger] skel.bones[k]).name@ != name@,
        },
{
    let mut k: usize = 0;
    while k < skel.bones.len()
        invariant
            k <= skel.bones.len(),
            forall|j: int| 0 <= j < k ==> (#[trigger] skel.bones[j]).name@ != name@,
        decreases skel.bones.len() - k,
    {
        if skel.bones[k].name == *name {
            return Some(k);
        }
        k += 1;
    }
    None
}

/// The bone that a mesh hangs on, as shaders read it: the first bone with
/// the name of the mesh's parent bone, and -1 where the mesh is skinned by
/// bone influences, where there is no skeleton and where no bone has the
/// name.
pub fn find_parent_index(
    has_bone_influences: bool,
    parent_bone_name: &String,
    skel: Option<&SkelData>,
) -> (r: i32)
    ensures
        has_bone_influences || skel is None ==> r == -1,
        !has_bone_influences && skel is Some ==> {
            ||| exists|k: int|
                is_first_bone_named(skel->0.bones@, parent_bone_name@, k) && r == shader_index(
                    Some(k as usize),
                )
            ||| r == -1 && forall|k: int|
                0 <= k < skel->0.bones.len() ==> (#[trigger] skel->0.bones[k]).name@
                    != parent_bone_name@
        },
{
    if has_bone_influences {
        -1
    } else {
        match skel {
            Some(skel) => parent_index(bone_position(skel, parent_bone_name)),
            None => -1,
        }
    }
}

} // verus!
