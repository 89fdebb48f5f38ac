//! Constraints between bones, and how their solvers are applied.
//!
//! A constraint adjusts the local transform of its target bone from the
//! world transforms of other bones, as the pose without constraints gives
//! them. The solvers themselves are numerics that the caller supplies as two
//! functions; what is decided here is which constraint a bone falls under
//! and what becomes of a solver's answer.

use vstd::prelude::*;
use crate::skeleton::{BoneData, MAX_BONE_COUNT};

verus! {

/// Points a bone at another bone.
#[derive(Debug, Clone)]
pub struct AimConstraintData {
    pub name: String,
    pub aim_bone_name1: String,
    pub aim_bone_name2: String,
    pub aim_type1: String,
    pub aim_type2: String,
    /// The bone whose local transform the constraint adjusts.
    pub target_bone_name1: String,
    pub target_bone_name2: String,
    pub unk1: u32,
    pub unk2: u32,
    pub aim: glam::Vec3,
    pub up: glam::Vec3,
    pub quat1: glam::Quat,
    pub quat2: glam::Quat,
}

/// Turns a bone as another bone is turned.
#[derive(Debug, Clone)]
pub struct OrientConstraintData {
    pub name: String,
    pub parent_bone_name1: String,
    pub parent_bone_name2: String,
    pub source_bone_name: String,
    /// The bone whose local transform the constraint adjusts.
    pub target_bone_name: String,
    pub unk_type: u32,
    pub constraint_axes: glam::Vec3,
    pub quat1: glam::Quat,
    pub quat2: glam::Quat,
    pub range_min: glam::Vec3,
    pub range_max: glam::Vec3,
}

/// The constraints of a skeleton.
#[derive(Debug, Clone)]
pub struct HlpbData {
    pub major_version: u16,
    pub minor_version: u16,
    pub aim_constraints: Vec<AimConstraintData>,
    pub orient_constraints: Vec<OrientConstraintData>,
}

/// Whether `k` is the first orientation constraint that targets `name`.
pub open spec fn is_first_orient(
    constraints: Seq<OrientConstraintData>,
    name: Seq<char>,
    k: int,
) -> bool {
    &&& 0 <= k < constraints.len()
    &&& constraints[k].target_bone_name@ == name
    &&& forall|j: int| 0 <= j < k ==> (#[trigger] constraints[j]).target_bone_name@ != name
}

/// Whether no orientation constraint targets `name`.
pub open spec fn no_orient(constraints: Seq<OrientConstraintData>, name: Seq<char>) -> bool {
    forall|j: int| 0 <= j < constraints.len() ==> (#[trigger] constraints[j]).target_bone_name@ != name
}

/// Whether `k` is the first aim constraint that targets `name`.
pub open spec fn is_first_aim(constraints: Seq<AimConstraintData>, name: Seq<char>, k: int) -> bool {
    &&& 0 <= k < constraints.len()
    &&& constraints[k].target_bone_name1@ == name
    &&& forall|j: int| 0 <= j < k ==> (#[trigger] constraints[j]).target_bone_name1@ != name
}

/// Whether no aim constraint targets `name`.
pub open spec fn no_aim(constraints: Seq<AimConstraintData>, name: Seq<char>) -> bool {
    forall|j: int| 0 <= j < constraints.len() ==> (#[trigger] constraints[j]).target_bone_name1@ != name
}

/// The transform that stands after a solver has answered: its answer, or the
/// transform as it was where the solver declined.
pub open spec fn adjusted(current: glam::Mat4, answer: Option<glam::Mat4>) -> glam::Mat4 {
    match answer {
        Some(m) => m,
        None => current,
    }
}

/// Whether `next` can follow `current` under the orientation constraints:
/// unchanged where no constraint targets the bone, and otherwise what the
/// solver made of the first constraint that does.
pub open spec fn orient_outcome<FO>(
    orient: &FO,
    hlpb: &HlpbData,
    world: [glam::Mat4; MAX_BONE_COUNT],
    bones: &[BoneData],
    name: Seq<char>,
    current: glam::Mat4,
    next: glam::Mat4,
) -> bool where
    FO: Fn(&[glam::Mat4; MAX_BONE_COUNT], &[BoneData], &OrientConstraintData, glam::Mat4) -> Option<
        glam::Mat4,
    >,
 {
    ||| no_orient(hlpb.orient_constraints@, name) && next == current
    ||| exists|k: int, answer: Option<glam::Mat4>|
        {
            &&& is_first_orient(hlpb.orient_constraints@, name, k)
            &&& call_ensures(*orient, (&world, bones, &hlpb.orient_constraints[k], current), answer)
            &&& next == adjusted(current, answer)
        }
}

/// Whether `next` can follow `current` under the aim constraints: unchanged
/// where no constraint targets the bone, and otherwise what the solver made
/// of the first constraint that does.
pub open spec fn aim_outcome<FA>(
    aim: &FA,
    hlpb: &HlpbData,
    world: [glam::Mat4; MAX_BONE_COUNT],
    bones: &[BoneData],
    name: Seq<char>,
    current: glam::Mat4,
    next: glam::Mat4,
) -> bool where
    FA: Fn(&[glam::Mat4; MAX_BONE_COUNT], &[BoneData], &AimConstraintData, glam::Mat4) -> Option<
        glam::Mat4,
    >,
 {
    ||| no_aim(hlpb.aim_constraints@, name) && next == current
    ||| exists|k: int, answer: Option<glam::Mat4>|
        {
            &&& is_first_aim(hlpb.aim_constraints@, name, k)
            &&& call_ensures(*aim, (&world, bones, &hlpb.aim_constraints[k], current), answer)
            &&& next == adjusted(current, answer)
        }
}

/// Whether `next` can follow `current` under all constraints: the
/// orientation constraints first, the aim constraints on what they leave.
pub open spec fn constrained_outcome<FO, FA>(
    orient: &FO,
    aim: &FA,
    hlpb: &HlpbData,
    world: [glam::Mat4; MAX_BONE_COUNT],
    bones: &[BoneData],
    name: Seq<char>,
    current: glam::Mat4,
    next: glam::Mat4,
) -> bool where
    FO: Fn(&[glam::Mat4; MAX_BONE_COUNT], &[BoneData], &OrientConstraintData, glam::Mat4) -> Option<
        glam::Mat4,
    >,
    FA: Fn(&[glam::Mat4; MAX_BONE_COUNT], &[BoneData], &AimConstraintData, glam::Mat4) -> Option<
        glam::Mat4,
    >,
 {
    exists|between: glam::Mat4|
        orient_outcome(orient, hlpb, world, bones, name, current, between) && aim_outcome(
            aim,
            hlpb,
            world,
            bones,
            name,
            between,
            next,
        )
}

/// Whether the two solvers can be called on every constraint of `hlpb`, with
/// these bones, whatever world transforms and local transform they are
/// handed.
pub open spec fn solvers_accept<FO, FA>(
    orient: &FO,
    aim: &FA,
    hlpb: &HlpbData,
    bones: &[BoneData],
) -> bool where
    FO: Fn(&[glam::Mat4; MAX_BONE_COUNT], &[BoneData], &OrientConstraintData, glam::Mat4) -> Option<
        glam::Mat4,
    >,
    FA: Fn(&[glam::Mat4; MAX_BONE_COUNT], &[BoneData], &AimConstraintData, glam::Mat4) -> Option<
        glam::Mat4,
    >,
 {
    &&& forall|w: &[glam::Mat4; MAX_BONE_COUNT], m: glam::Mat4, k: int|
        0 <= k < hlpb.orient_constraints.len() ==> #[trigger] call_requires(
            *orient,
            (w, bones, &hlpb.orient_constraints[k], m),
        )
    &&& forall|w: &[glam::Mat4; MAX_BONE_COUNT], m: glam::Mat4, k: int|
        0 <= k < hlpb.aim_constraints.len() ==> #[trigger] call_requires(
            *aim,
            (w, bones, &hlpb.aim_constraints[k], m),
        )
}

/// The first orientation constraint that targets the bone called `name`.
pub fn find_orient_constraint(hlpb: &HlpbData, name: &String) -> (r: Option<usize>)
    ensures
        match r {
            Some(k) => is_first_orient(hlpb.orient_constraints@, name@, k as int),
            None => no_orient(hlpb.orient_constraints@, name@),
        },
{
    let mut k: usize = 0;
    while k < hlpb.orient_constraints.len()
        invariant
            k <= hlpb.orient_constraints.len(),
            forall|j: int|
                0 <= j < k ==> (#[trigger] hlpb.orient_constraints[j]).target_bone_name@ != name@,
        decreases hlpb.orient_constraints.len() - k,
    {
        if hlpb.orient_constraints[k].target_bone_name == *name {
            return Some(k);
        }
        k += 1;
    }
    None
}

/// The first aim constraint that targets the bone called `name`.
pub fn find_aim_constraint(hlpb: &HlpbData, name: &String) -> (r: Option<usize>)
    ensures
        match r {
            Some(k) => is_first_aim(hlpb.aim_constraints@, name@, k as int),
            None => no_aim(hlpb.aim_constraints@, name@),
        },
{
    let mut k: usize = 0;
    while k < hlpb.aim_constraints.len()
        invariant
            k <= hlpb.aim_constraints.len(),
            forall|j: int|
                0 <= j < k ==> (#[trigger] hlpb.aim_constraints[j]).target_bone_name1@ != name@,
        decreases hlpb.aim_constraints.len() - k,
    {
        if hlpb.aim_constraints[k].target_bone_name1 == *name {
            return Some(k);
        }
        k += 1;
    }
    None
}

/// What stands after a solver has answered.
pub fn adjust(current: glam::Mat4, answer: Option<glam::Mat4>) -> (r: glam::Mat4)
    ensures
        r == adjusted(current, answer),
        answer is None ==> r == current,
{
    match answer {
        Some(m) => m,
        None => current,
    }
}

} // verus!
