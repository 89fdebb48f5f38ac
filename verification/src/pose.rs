//! The pose evaluator: world transforms of the bones at one frame, and
//! their deltas from the rest pose for skinning.
//!
//! The evaluator walks the evaluation order four times. The first walk
//! composes the rest pose into world transforms, which are then inverted.
//! The second composes the animated pose without constraints, so that every
//! bone a constraint may read has a world transform of this frame. The third
//! composes it again and lets the constraints adjust each bone's local
//! transform on the way; what the constraints read is the outcome of the
//! second walk, untouched by the third. The last expresses the world
//! transform of each bone relative to its rest pose.
//!
//! Only the bones of the evaluation order are written. A bone whose chain of
//! parents runs into a cycle keeps whatever the buffers held for it, and so
//! does every slot past the bones.

use vstd::prelude::*;
use crate::animated_bone::AnimatedBone;
use crate::clip::{
    apply_transforms, bones_after_clip, clip_can_be_sampled, clip_is_sampleable,
    lemma_groups_keep_skeleton, lemma_sampling_by_skeleton, same_skeleton, AnimData,
};
use crate::constraints::{
    adjust, aim_outcome, constrained_outcome, find_aim_constraint, find_orient_constraint,
    no_aim, no_orient, orient_outcome, solvers_accept, AimConstraintData, HlpbData,
    OrientConstraintData,
};
use crate::linear::{
    identity_matrix, mat4_identity, mat4_inverse, mat4_mul, mat4_transpose, matrix_inverse,
    matrix_product, matrix_transpose, unit_scale, vec3_one, vec3_recip, vector_reciprocal,
};
use crate::order::{evaluation_order, evaluation_order_spec, parent_links};
use crate::pose_lemmas::{lemma_links_by_skeleton, lemma_unlisted_bone_keeps_slots};
use crate::sampling::FramePosition;
use crate::skeleton::{BoneData, SkelData, MAX_BONE_COUNT};
use crate::transform::TransformFlags;

verus! {

/// The skinning matrices of every bone slot.
#[derive(Debug, Clone, Copy)]
pub struct AnimatedWorldTransforms {
    /// The world transform of each bone relative to its rest pose.
    pub transforms: [glam::Mat4; MAX_BONE_COUNT],
    /// The inverse transpose of each of `transforms`, for normals.
    pub transforms_inv_transpose: [glam::Mat4; MAX_BONE_COUNT],
}

/// What the evaluator writes: one slot for every bone that there is room
/// for.
#[derive(Debug, Clone, Copy)]
pub struct AnimationTransforms {
    /// The animated world transform of each bone relative to its rest pose.
    pub animated_world_transforms: AnimatedWorldTransforms,
    /// The animated world transform of each bone.
    pub world_transforms: [glam::Mat4; MAX_BONE_COUNT],
}

impl AnimationTransforms {
    /// The transforms of a pose that moves nothing: every slot holds the
    /// identity.
    pub fn identity() -> (r: Self)
        ensures
            forall|i: int|
                0 <= i < MAX_BONE_COUNT ==> {
                    &&& #[trigger] r.world_transforms@[i] == identity_matrix()
                    &&& r.animated_world_transforms.transforms@[i] == identity_matrix()
                    &&& r.animated_world_transforms.transforms_inv_transpose@[i]
                        == identity_matrix()
                },
    {
        let identity = mat4_identity();
        AnimationTransforms {
            animated_world_transforms: AnimatedWorldTransforms {
                transforms: [identity;MAX_BONE_COUNT],
                transforms_inv_transpose: [identity;MAX_BONE_COUNT],
            },
            world_transforms: [identity;MAX_BONE_COUNT],
        }
    }
}

/// The parent of `bone` among `bones`, where its parent index names one.
pub open spec fn valid_parent(bones: Seq<AnimatedBone>, bone: AnimatedBone) -> Option<int> {
    match bone.bone.parent_index {
        Some(p) => if (p as int) < bones.len() {
            Some(p as int)
        } else {
            None
        },
        None => None,
    }
}

/// The scale that cancels what `bone` inherits from its parent: the
/// reciprocal of the parent's own animated scale where the bone asks for
/// compensation, and no change otherwise. A parent that is not animated
/// counts as scaled by one.
pub open spec fn scale_compensation(bones: Seq<AnimatedBone>, bone: AnimatedBone) -> glam::Vec3 {
    match valid_parent(bones, bone) {
        Some(p) => if bone.compensate_scale {
            vector_reciprocal(
                match bones[p].anim_transform {
                    Some(t) => t.scale,
                    None => unit_scale(),
                },
            )
        } else {
            unit_scale()
        },
        None => unit_scale(),
    }
}

/// The local transform of `bone` at this frame, before any constraint.
pub open spec fn local_transform(bones: Seq<AnimatedBone>, bone: AnimatedBone) -> glam::Mat4 {
    bone.local_matrix(scale_compensation(bones, bone))
}

/// The world transform that `bone` is placed in: that of its parent, or the
/// identity for a bone without one.
pub open spec fn parent_world(
    world: Seq<glam::Mat4>,
    bones: Seq<AnimatedBone>,
    bone: AnimatedBone,
) -> glam::Mat4 {
    match valid_parent(bones, bone) {
        Some(p) => world[p],
        None => identity_matrix(),
    }
}

/// The rest world transforms after bone `i` has been composed.
pub open spec fn rest_step(rest: Seq<glam::Mat4>, bones: Seq<AnimatedBone>, i: int) -> Seq<
    glam::Mat4,
> {
    rest.update(
        i,
        match valid_parent(bones, bones[i]) {
            Some(p) => matrix_product(rest[p], bones[i].bone.transform),
            None => bones[i].bone.transform,
        },
    )
}

/// The rest world transforms after the first `count` bones of the order have
/// been composed. Slots that no bone has reached hold the identity.
pub open spec fn rest_worlds(bones: Seq<AnimatedBone>, order: Seq<usize>, count: nat) -> Seq<
    glam::Mat4,
>
    decreases count,
{
    if count == 0 {
        Seq::new(MAX_BONE_COUNT as nat, |i: int| identity_matrix())
    } else {
        rest_step(rest_worlds(bones, order, (count - 1) as nat), bones, order[count - 1] as int)
    }
}

/// The rest world transforms fill every slot.
pub proof fn lemma_rest_worlds_len(bones: Seq<AnimatedBone>, order: Seq<usize>, count: nat)
    requires
        count <= order.len(),
        forall|k: int| 0 <= k < order.len() ==> (#[trigger] order[k]) < MAX_BONE_COUNT,
    ensures
        rest_worlds(bones, order, count).len() == MAX_BONE_COUNT,
    decreases count,
{
    if count > 0 {
        lemma_rest_worlds_len(bones, order, (count - 1) as nat);
    }
}

/// The world transforms after bone `i` has been placed with the local
/// transform `local`.
pub open spec fn world_step(
    world: Seq<glam::Mat4>,
    bones: Seq<AnimatedBone>,
    i: int,
    local: glam::Mat4,
) -> Seq<glam::Mat4> {
    world.update(i, matrix_product(parent_world(world, bones, bones[i]), local))
}

/// The world transforms after the first `count` bones of the order have
/// been placed without constraints.
pub open spec fn unconstrained_worlds(
    world: Seq<glam::Mat4>,
    bones: Seq<AnimatedBone>,
    order: Seq<usize>,
    count: nat,
) -> Seq<glam::Mat4>
    decreases count,
{
    if count == 0 {
        world
    } else {
        let before = unconstrained_worlds(world, bones, order, (count - 1) as nat);
        world_step(
            before,
            bones,
            order[count - 1] as int,
            local_transform(bones, bones[order[count - 1] as int]),
        )
    }
}

/// Whether `local` can be the local transform of `bone` after the
/// constraints, whose solvers are handed the world transforms `world`.
pub open spec fn local_outcome<FO, FA>(
    orient: &FO,
    aim: &FA,
    hlpb: Option<&HlpbData>,
    world: [glam::Mat4; MAX_BONE_COUNT],
    skel_bones: &[BoneData],
    bones: Seq<AnimatedBone>,
    bone: AnimatedBone,
    local: glam::Mat4,
) -> bool where
    FO: Fn(&[glam::Mat4; MAX_BONE_COUNT], &[BoneData], &OrientConstraintData, glam::Mat4) -> Option<
        glam::Mat4,
    >,
    FA: Fn(&[glam::Mat4; MAX_BONE_COUNT], &[BoneData], &AimConstraintData, glam::Mat4) -> Option<
        glam::Mat4,
    >,
 {
    match hlpb {
        Some(h) => constrained_outcome(
            orient,
            aim,
            h,
            world,
            skel_bones,
            bone.bone.name@,
            local_transform(bones, bone),
            local,
        ),
        None => local == local_transform(bones, bone),
    }
}

/// The world transforms after the first `count` bones of the order have
/// been placed, each with its local transform out of `locals`.
pub open spec fn worlds_with(
    world: Seq<glam::Mat4>,
    bones: Seq<AnimatedBone>,
    order: Seq<usize>,
    locals: Seq<glam::Mat4>,
    count: nat,
) -> Seq<glam::Mat4>
    decreases count,
{
    if count == 0 {
        world
    } else {
        world_step(
            worlds_with(world, bones, order, locals, (count - 1) as nat),
            bones,
            order[count - 1] as int,
            locals[count - 1],
        )
    }
}

/// The first `count` placements read the first `count` local transforms
/// and no others.
pub proof fn lemma_worlds_with_prefix(
    world: Seq<glam::Mat4>,
    bones: Seq<AnimatedBone>,
    order: Seq<usize>,
    a: Seq<glam::Mat4>,
    b: Seq<glam::Mat4>,
    count: nat,
)
    requires
        count <= a.len(),
        count <= b.len(),
        forall|k: int| 0 <= k < count ==> a[k] == b[k],
    ensures
        worlds_with(world, bones, order, a, count) == worlds_with(world, bones, order, b, count),
    decreases count,
{
    if count > 0 {
        lemma_worlds_with_prefix(world, bones, order, a, b, (count - 1) as nat);
    }
}

/// Whether `locals` can be the local transforms of the bones of the order
/// after the constraints: one for every bone of the order, each what the
/// solvers make of the bone's own local transform when they are handed the
/// world transforms `unconstrained`.
pub open spec fn locals_are_outcomes<FO, FA>(
    orient: &FO,
    aim: &FA,
    hlpb: Option<&HlpbData>,
    unconstrained: [glam::Mat4; MAX_BONE_COUNT],
    skel_bones: &[BoneData],
    bones: Seq<AnimatedBone>,
    order: Seq<usize>,
    locals: Seq<glam::Mat4>,
) -> bool where
    FO: Fn(&[glam::Mat4; MAX_BONE_COUNT], &[BoneData], &OrientConstraintData, glam::Mat4) -> Option<
        glam::Mat4,
    >,
    FA: Fn(&[glam::Mat4; MAX_BONE_COUNT], &[BoneData], &AimConstraintData, glam::Mat4) -> Option<
        glam::Mat4,
    >,
 {
    &&& locals.len() == order.len()
    &&& forall|k: int|
        0 <= k < order.len() ==> local_outcome(
            orient,
            aim,
            hlpb,
            unconstrained,
            skel_bones,
            bones,
            bones[order[k] as int],
            #[trigger] locals[k],
        )
}

/// Whether the skinning matrices in `after` are what the last walk makes of
/// the world transforms `world`: for every bone of the order, its world
/// transform times the inverse of its rest world transform, and the inverse
/// transpose of that. Every other slot is as it was in `before`: the slots
/// past the bones, and those of the bones that the order leaves out.
pub open spec fn skin_finalized(
    bones: Seq<AnimatedBone>,
    order: Seq<usize>,
    world: Seq<glam::Mat4>,
    before: AnimatedWorldTransforms,
    after: AnimatedWorldTransforms,
) -> bool {
    forall|i: int|
        0 <= i < MAX_BONE_COUNT ==> if order.contains(i as usize) {
            &&& #[trigger] after.transforms@[i] == matrix_product(
                world[i],
                matrix_inverse(rest_worlds(bones, order, order.len())[i]),
            )
            &&& after.transforms_inv_transpose@[i] == matrix_transpose(
                matrix_inverse(after.transforms@[i]),
            )
        } else {
            &&& after.transforms@[i] == before.transforms@[i]
            &&& after.transforms_inv_transpose@[i] == before.transforms_inv_transpose@[i]
        }
}

/// A bone stands among the first `count + 1` bones of the order exactly if
/// it stands among the first `count` or is the next one.
pub proof fn lemma_listed_one_more(order: Seq<usize>, count: int, bone: usize)
    requires
        0 <= count < order.len(),
    ensures
        order.take(count + 1).contains(bone) <==> order.take(count).contains(bone) || order[count]
            == bone,
{
    let shorter = order.take(count);
    let longer = order.take(count + 1);
    if shorter.contains(bone) {
        let m = choose|m: int| 0 <= m < shorter.len() && shorter[m] == bone;
        assert(longer[m] == bone);
    }
    if order[count] == bone {
        assert(longer[count] == bone);
    }
    if longer.contains(bone) {
        let m = choose|m: int| 0 <= m < longer.len() && longer[m] == bone;
        if m < count {
            assert(shorter[m] == bone);
        }
    }
}

/// Whether slot `i` holds in `after` what it held in `before`: its world
/// transform, its skinning matrix and the inverse transpose of that.
pub open spec fn slot_kept(before: AnimationTransforms, after: AnimationTransforms, i: int) -> bool {
    &&& after.world_transforms@[i] == before.world_transforms@[i]
    &&& after.animated_world_transforms.transforms@[i]
        == before.animated_world_transforms.transforms@[i]
    &&& after.animated_world_transforms.transforms_inv_transpose@[i]
        == before.animated_world_transforms.transforms_inv_transpose@[i]
}

/// Whether `after` is what evaluating the pose of `bones` makes of the
/// buffers `before`.
///
/// The bones of the order are first placed without constraints, in the
/// world transforms that `before` held. Then they are placed again, each in
/// the world transform that this second walk gave its parent, with the
/// local transform that the constraints leave it; the solvers see the world
/// transforms of the first walk and no others. The skinning matrices of the
/// bones of the order are taken from the world transforms of the second
/// walk. Whatever slot belongs to no bone of the order is as in `before`.
pub open spec fn pose_evaluated<FO, FA>(
    orient: &FO,
    aim: &FA,
    hlpb: Option<&HlpbData>,
    skel_bones: &[BoneData],
    bones: Seq<AnimatedBone>,
    before: AnimationTransforms,
    after: AnimationTransforms,
) -> bool where
    FO: Fn(&[glam::Mat4; MAX_BONE_COUNT], &[BoneData], &OrientConstraintData, glam::Mat4) -> Option<
        glam::Mat4,
    >,
    FA: Fn(&[glam::Mat4; MAX_BONE_COUNT], &[BoneData], &AimConstraintData, glam::Mat4) -> Option<
        glam::Mat4,
    >,
 {
    let order = evaluation_order_spec(parent_links(bones));
    exists|unconstrained: [glam::Mat4; MAX_BONE_COUNT], locals: Seq<glam::Mat4>|
        {
            &&& unconstrained@ == unconstrained_worlds(
                before.world_transforms@,
                bones,
                order,
                order.len(),
            )
            &&& #[trigger] locals_are_outcomes(
                orient,
                aim,
                hlpb,
                unconstrained,
                skel_bones,
                bones,
                order,
                locals,
            )
            &&& after.world_transforms@ == worlds_with(
                unconstrained@,
                bones,
                order,
                locals,
                order.len(),
            )
            &&& skin_finalized(
                bones,
                order,
                after.world_transforms@,
                before.animated_world_transforms,
                after.animated_world_transforms,
            )
        }
}

/// The world transform that `bone` is placed in and its local transform at
/// this frame, before any constraint.
pub fn calculate_world_transform(
    bones: &[AnimatedBone],
    bone: &AnimatedBone,
    result: &AnimationTransforms,
) -> (r: (glam::Mat4, glam::Mat4))
    requires
        bones.len() <= MAX_BONE_COUNT,
    ensures
        r.0 == parent_world(result.world_transforms@, bones@, *bone),
        r.1 == local_transform(bones@, *bone),
        bone.anim_transform is None ==> r.1 == bone.bone.transform,
{
    let parent = match bone.bone.parent_index {
        Some(p) => if p < bones.len() {
            Some(p)
        } else {
            None
        },
        None => None,
    };
    match parent {
        Some(parent_index) => {
            let parent_transform = result.world_transforms[parent_index];
            let scale_compensation = if bone.compensate_scale {
                let parent_scale = match bones[parent_index].anim_transform {
                    Some(t) => t.scale,
                    None => vec3_one(),
                };
                vec3_recip(parent_scale)
            } else {
                vec3_one()
            };
            let current_transform = bone.animated_transform(scale_compensation);
            (parent_transform, current_transform)
        },
        None => (mat4_identity(), bone.animated_transform(vec3_one())),
    }
}

/// Applies the constraints that target `bone` to its local transform
/// `current`.
///
/// The first orientation constraint that targets the bone by name is handed
/// to `orient`, and then the first aim constraint that targets it to `aim`,
/// which sees what `orient` left. Each solver is given `world_transforms`
/// and the bones of the skeleton. Where a solver declines, and where no
/// constraint targets the bone, the transform stays.
pub fn apply_constraints<FO, FA>(
    current: &mut glam::Mat4,
    hlpb: &HlpbData,
    bone: &AnimatedBone,
    world_transforms: &[glam::Mat4; MAX_BONE_COUNT],
    bones: &[BoneData],
    orient: &FO,
    aim: &FA,
) where
    FO: Fn(&[glam::Mat4; MAX_BONE_COUNT], &[BoneData], &OrientConstraintData, glam::Mat4) -> Option<
        glam::Mat4,
    >,
    FA: Fn(&[glam::Mat4; MAX_BONE_COUNT], &[BoneData], &AimConstraintData, glam::Mat4) -> Option<
        glam::Mat4,
    >,

    requires
        solvers_accept(orient, aim, hlpb, bones),
    ensures
        constrained_outcome(
            orient,
            aim,
            hlpb,
            *world_transforms,
            bones,
            bone.bone.name@,
            *old(current),
            *final(current),
        ),
        no_orient(hlpb.orient_constraints@, bone.bone.name@) && no_aim(
            hlpb.aim_constraints@,
            bone.bone.name@,
        ) ==> *final(current) == *old(current),
{
    let ghost start = *current;
    if let Some(k) = find_orient_constraint(hlpb, &bone.bone.name) {
        let answer = orient(world_transforms, bones, &hlpb.orient_constraints[k], *current);
        *current = adjust(*current, answer);
    }
    let ghost between = *current;
    assert(orient_outcome(
        orient,
        hlpb,
        *world_transforms,
        bones,
        bone.bone.name@,
        start,
        between,
    ));
    if let Some(k) = find_aim_constraint(hlpb, &bone.bone.name) {
        let answer = aim(world_transforms, bones, &hlpb.aim_constraints[k], *current);
        *current = adjust(*current, answer);
    }
    assert(aim_outcome(
        aim,
        hlpb,
        *world_transforms,
        bones,
        bone.bone.name@,
        between,
        *current,
    ));
}

/// Evaluates the pose of `bones` into `result`.
///
/// The world transforms in `result` are composed along the evaluation order,
/// first without the constraints in `hlpb` and then with them. The solvers
/// `orient` and `aim` are handed the world transforms of the first walk, so
/// that no constraint reads what another has already adjusted. The skinning
/// matrices of the bones of the order are then taken from their world
/// transforms. A bone that the order leaves out keeps what `result` held for
/// it: its world transform, its skinning matrix and the inverse transpose of
/// that. So does every slot past the bones. There must be room for every
/// bone.
pub fn animate_skel_inner<FO, FA>(
    result: &mut AnimationTransforms,
    bones: &[AnimatedBone],
    skel_bones: &[BoneData],
    hlpb: Option<&HlpbData>,
    orient: &FO,
    aim: &FA,
) where
    FO: Fn(&[glam::Mat4; MAX_BONE_COUNT], &[BoneData], &OrientConstraintData, glam::Mat4) -> Option<
        glam::Mat4,
    >,
    FA: Fn(&[glam::Mat4; MAX_BONE_COUNT], &[BoneData], &AimConstraintData, glam::Mat4) -> Option<
        glam::Mat4,
    >,

    requires
        bones.len() <= MAX_BONE_COUNT,
        hlpb matches Some(h) ==> solvers_accept(orient, aim, h, skel_bones),
    ensures
        pose_evaluated(orient, aim, hlpb, skel_bones, bones@, *old(result), *final(result)),
        forall|i: int|
            0 <= i < MAX_BONE_COUNT && !evaluation_order_spec(parent_links(bones@)).contains(
                i as usize,
            ) ==> slot_kept(*old(result), *final(result), i),
{
    let order = evaluation_order(bones);
    let ghost start = *result;
    let ghost links = parent_links(bones@);

    let identity = mat4_identity();
    let mut bone_inv_world = [identity;MAX_BONE_COUNT];
    assert(bone_inv_world@ =~= rest_worlds(bones@, order@, 0));
    let mut k: usize = 0;
    while k < order.len()
        invariant
            k <= order.len(),
            bones.len() <= MAX_BONE_COUNT,
            forall|j: int| 0 <= j < order.len() ==> (#[trigger] order[j]) < bones.len(),
            bone_inv_world@ == rest_worlds(bones@, order@, k as nat),
        decreases order.len() - k,
    {
        let i = order[k];
        let bone = &bones[i];
        let rest = match bone.bone.parent_index {
            Some(p) => if p < bones.len() {
                mat4_mul(&bone_inv_world[p], &bone.transform())
            } else {
                bone.transform()
            },
            None => bone.transform(),
        };
        bone_inv_world[i] = rest;
        k += 1;
    }
    let ghost rest = bone_inv_world@;
    proof {
        lemma_rest_worlds_len(bones@, order@, order@.len());
    }
    let mut j: usize = 0;
    while j < MAX_BONE_COUNT
        invariant
            j <= MAX_BONE_COUNT,
            rest.len() == MAX_BONE_COUNT,
            forall|i: int|
                0 <= i < MAX_BONE_COUNT ==> #[trigger] bone_inv_world@[i] == if i < j {
                    matrix_inverse(rest[i])
                } else {
                    rest[i]
                },
        decreases MAX_BONE_COUNT - j,
    {
        bone_inv_world[j] = mat4_inverse(&bone_inv_world[j]);
        j += 1;
    }

    let mut k: usize = 0;
    while k < order.len()
        invariant
            k <= order.len(),
            bones.len() <= MAX_BONE_COUNT,
            forall|j: int| 0 <= j < order.len() ==> (#[trigger] order[j]) < bones.len(),
            result.animated_world_transforms == start.animated_world_transforms,
            result.world_transforms@ == unconstrained_worlds(
                start.world_transforms@,
                bones@,
                order@,
                k as nat,
            ),
        decreases order.len() - k,
    {
        let i = order[k];
        let bone = &bones[i];
        let (parent_world, current) = calculate_world_transform(bones, bone, result);
        result.world_transforms[i] = mat4_mul(&parent_world, &current);
        k += 1;
    }
    let unconstrained = result.world_transforms;
    let ghost locals = Seq::<glam::Mat4>::empty();

    let mut k: usize = 0;
    while k < order.len()
        invariant
            k <= order.len(),
            bones.len() <= MAX_BONE_COUNT,
            forall|j: int| 0 <= j < order.len() ==> (#[trigger] order[j]) < bones.len(),
            hlpb matches Some(h) ==> solvers_accept(orient, aim, h, skel_bones),
            result.animated_world_transforms == start.animated_world_transforms,
            locals.len() == k,
            forall|j: int|
                0 <= j < k ==> local_outcome(
                    orient,
                    aim,
                    hlpb,
                    unconstrained,
                    skel_bones,
                    bones@,
                    bones@[order[j] as int],
                    #[trigger] locals[j],
                ),
            result.world_transforms@ == worlds_with(
                unconstrained@,
                bones@,
                order@,
                locals,
                k as nat,
            ),
        decreases order.len() - k,
    {
        let i = order[k];
        let bone = &bones[i];
        let ghost before = result.world_transforms@;
        let ghost earlier = locals;
        let (parent_world, mut current) = calculate_world_transform(bones, bone, result);
        if let Some(hlpb) = hlpb {
            apply_constraints(&mut current, hlpb, bone, &unconstrained, skel_bones, orient, aim);
        }
        result.world_transforms[i] = mat4_mul(&parent_world, &current);
        proof {
            locals = earlier.push(current);
            lemma_worlds_with_prefix(unconstrained@, bones@, order@, earlier, locals, k as nat);
            assert(result.world_transforms@ == world_step(before, bones@, i as int, current));
        }
        k += 1;
    }
    assert(locals_are_outcomes(
        orient,
        aim,
        hlpb,
        unconstrained,
        skel_bones,
        bones@,
        order@,
        locals,
    ));

    let ghost world = result.world_transforms@;
    let mut k: usize = 0;
    while k < order.len()
        invariant
            k <= order.len(),
            bones.len() <= MAX_BONE_COUNT,
            forall|j: int| 0 <= j < order.len() ==> (#[trigger] order[j]) < bones.len(),
            result.world_transforms@ == world,
            rest == rest_worlds(bones@, order@, order@.len()),
            rest.len() == MAX_BONE_COUNT,
            world.len() == MAX_BONE_COUNT,
            forall|j: int|
                0 <= j < MAX_BONE_COUNT ==> #[trigger] bone_inv_world@[j] == matrix_inverse(rest[j]),
            forall|j: int|
                0 <= j < MAX_BONE_COUNT ==> #[trigger] result.animated_world_transforms.transforms@[j]
                    == if order@.take(k as int).contains(j as usize) {
                    matrix_product(world[j], matrix_inverse(rest[j]))
                } else {
                    start.animated_world_transforms.transforms@[j]
                },
            forall|j: int|
                0 <= j < MAX_BONE_COUNT
                    ==> #[trigger] result.animated_world_transforms.transforms_inv_transpose@[j]
                    == if order@.take(k as int).contains(j as usize) {
                    matrix_transpose(
                        matrix_inverse(result.animated_world_transforms.transforms@[j]),
                    )
                } else {
                    start.animated_world_transforms.transforms_inv_transpose@[j]
                },
        decreases order.len() - k,
    {
        let i = order[k];
        let anim_transform = mat4_mul(&result.world_transforms[i], &bone_inv_world[i]);
        result.animated_world_transforms.transforms[i] = anim_transform;
        result.animated_world_transforms.transforms_inv_transpose[i] = mat4_transpose(
            &mat4_inverse(&anim_transform),
        );
        proof {
            let shorter = order@.take(k as int);
            let longer = order@.take(k as int + 1);
            assert forall|j: int| 0 <= j < MAX_BONE_COUNT implies (#[trigger] longer.contains(
                j as usize,
            ) <==> shorter.contains(j as usize) || j == i) by {
                lemma_listed_one_more(order@, k as int, j as usize);
            }
        }
        k += 1;
    }
    assert(order@.take(order.len() as int) =~= order@);
    assert(pose_evaluated(orient, aim, hlpb, skel_bones, bones@, start, *result));
    assert forall|i: int|
        0 <= i < MAX_BONE_COUNT && !evaluation_order_spec(parent_links(bones@)).contains(
            i as usize,
        ) implies slot_kept(start, *result, i) by {
        lemma_unlisted_bone_keeps_slots(orient, aim, hlpb, skel_bones, bones@, start, *result, i);
    }
}

/// The bones of a skeleton before any clip has been applied: one for every
/// bone that there is room for, none of them animated.
pub open spec fn initial_bones<'a>(skel_bones: Seq<BoneData>) -> Seq<AnimatedBone<'a>> {
    Seq::new(
        if skel_bones.len() <= MAX_BONE_COUNT {
            skel_bones.len()
        } else {
            MAX_BONE_COUNT as nat
        },
        |i: int|
            AnimatedBone {
                bone: &skel_bones[i],
                anim_transform: None,
                compensate_scale: false,
                flags: TransformFlags::default_flags(),
            },
    )
}

/// The bones after the first `count` clips have been applied, in order: a
/// later clip replaces what an earlier one gave a bone.
pub open spec fn bones_after_clips<'a>(
    bones: Seq<AnimatedBone<'a>>,
    anims: Seq<&AnimData>,
    frame: FramePosition,
    count: nat,
) -> Seq<AnimatedBone<'a>>
    decreases count,
{
    if count == 0 {
        bones
    } else {
        bones_after_clip(
            bones_after_clips(bones, anims, frame, (count - 1) as nat),
            *anims[count - 1],
            frame,
        )
    }
}

/// Applying clips keeps every bone of the skeleton in its place.
pub proof fn lemma_clips_keep_skeleton(
    bones: Seq<AnimatedBone>,
    anims: Seq<&AnimData>,
    frame: FramePosition,
    count: nat,
)
    ensures
        same_skeleton(bones_after_clips(bones, anims, frame, count), bones),
    decreases count,
{
    if count > 0 {
        let before = bones_after_clips(bones, anims, frame, (count - 1) as nat);
        lemma_clips_keep_skeleton(bones, anims, frame, (count - 1) as nat);
        lemma_groups_keep_skeleton(
            before,
            anims[count - 1].groups@,
            frame,
            anims[count - 1].groups.len() as nat,
        );
    }
}

/// The bones of a skeleton before any clip has been applied.
pub fn unanimated_bones(skel: &SkelData) -> (bones: Vec<AnimatedBone<'_>>)
    ensures
        bones@ == initial_bones(skel.bones@),
        bones.len() <= MAX_BONE_COUNT,
{
    let mut bones: Vec<AnimatedBone> = Vec::new();
    let mut i: usize = 0;
    while i < skel.bones.len() && i < MAX_BONE_COUNT
        invariant
            i <= skel.bones.len(),
            i <= MAX_BONE_COUNT,
            bones.len() == i,
            forall|j: int| 0 <= j < i ==> #[trigger] bones[j] == initial_bones(skel.bones@)[j],
        decreases skel.bones.len() - i,
    {
        bones.push(AnimatedBone::new(&skel.bones[i]));
        i += 1;
    }
    assert(bones@ =~= initial_bones(skel.bones@));
    bones
}

/// Whether the clips can be applied to the skeleton: whether none of them
/// holds a transform track without keys for one of its bones.
pub fn clips_are_sampleable(skel: &SkelData, anims: &[&AnimData]) -> (r: bool)
    ensures
        r == forall|a: int|
            0 <= a < anims.len() ==> clip_can_be_sampled(
                *#[trigger] anims[a],
                initial_bones(skel.bones@),
            ),
{
    let bones = unanimated_bones(skel);
    let mut a: usize = 0;
    while a < anims.len()
        invariant
            a <= anims.len(),
            bones@ == initial_bones(skel.bones@),
            forall|b: int| 0 <= b < a ==> clip_can_be_sampled(*#[trigger] anims[b], bones@),
        decreases anims.len() - a,
    {
        if !clip_is_sampleable(&bones, anims[a]) {
            return false;
        }
        a += 1;
    }
    true
}

/// Evaluates the pose of a skeleton under the clips in `anims` at `frame`.
///
/// The bones of the skeleton, as many as there is room for, are animated by
/// the transform tracks of the clips, a later clip replacing what an earlier
/// one gave a bone. Their pose is then evaluated into `result` as
/// `animate_skel_inner` does. No clip may hold a transform track without
/// keys for a bone of the skeleton.
pub fn animate_skel<FO, FA>(
    result: &mut AnimationTransforms,
    skel: &SkelData,
    anims: &[&AnimData],
    hlpb: Option<&HlpbData>,
    frame: &FramePosition,
    orient: &FO,
    aim: &FA,
) where
    FO: Fn(&[glam::Mat4; MAX_BONE_COUNT], &[BoneData], &OrientConstraintData, glam::Mat4) -> Option<
        glam::Mat4,
    >,
    FA: Fn(&[glam::Mat4; MAX_BONE_COUNT], &[BoneData], &AimConstraintData, glam::Mat4) -> Option<
        glam::Mat4,
    >,

    requires
        forall|a: int|
            0 <= a < anims.len() ==> clip_can_be_sampled(
                *#[trigger] anims[a],
                initial_bones(skel.bones@),
            ),
        hlpb matches Some(h) ==> forall|b: &[BoneData]|
            b@ == skel.bones@ ==> #[trigger] solvers_accept(orient, aim, h, b),
    ensures
        exists|skel_bones: &[BoneData]|
            skel_bones@ == skel.bones@ && #[trigger] pose_evaluated(
                orient,
                aim,
                hlpb,
                skel_bones,
                bones_after_clips(
                    initial_bones(skel.bones@),
                    anims@,
                    *frame,
                    anims.len() as nat,
                ),
                *old(result),
                *final(result),
            ),
        forall|i: int|
            0 <= i < MAX_BONE_COUNT && !evaluation_order_spec(
                parent_links(initial_bones(skel.bones@)),
            ).contains(i as usize) ==> slot_kept(*old(result), *final(result), i),
{
    let mut bones = unanimated_bones(skel);
    let ghost start = bones@;

    let mut a: usize = 0;
    while a < anims.len()
        invariant
            a <= anims.len(),
            bones.len() <= MAX_BONE_COUNT,
            start == initial_bones(skel.bones@),
            forall|a: int|
                0 <= a < anims.len() ==> clip_can_be_sampled(*#[trigger] anims[a], start),
            bones@ == bones_after_clips(start, anims@, *frame, a as nat),
        decreases anims.len() - a,
    {
        proof {
            lemma_clips_keep_skeleton(start, anims@, *frame, a as nat);
            lemma_sampling_by_skeleton(*anims[a as int], bones@, start);
        }
        apply_transforms(&mut bones, anims[a], frame);
        a += 1;
    }
    proof {
        lemma_clips_keep_skeleton(start, anims@, *frame, anims.len() as nat);
        lemma_links_by_skeleton(bones@, start);
    }
    animate_skel_inner(result, bones.as_slice(), skel.bones.as_slice(), hlpb, orient, aim);
}

} // verus!
