//! What holds of an evaluated pose, whatever the order of the walk.
//!
//! The evaluator is specified as a walk along the evaluation order. The
//! lemmas here restate its results bone by bone: the world transform of a
//! bone is that of its parent times its own local transform, and a slot
//! that belongs to no bone of the order is left as it was.
//!
//! From that follows what becomes of a bone that no clip animates and no
//! constraint targets, below ancestors of the same kind. Its world
//! transform is the product of the rest transforms along its chain of
//! parents, the topmost placed in the identity. The rest world transforms
//! that the skinning matrices are taken against are composed without that
//! last product; where it changes nothing, the bone has its rest world
//! transform, and its skinning matrix is that transform times its own
//! inverse.

use vstd::prelude::*;
use crate::animated_bone::AnimatedBone;
use crate::clip::{clip_spares, lemma_unmatched_bone_untouched, same_skeleton, AnimData};
use crate::constraints::{no_aim, no_orient, AimConstraintData, HlpbData, OrientConstraintData};
use crate::linear::{identity_matrix, matrix_inverse, matrix_product, matrix_transpose};
use crate::order::{
    ancestor, evaluation_order_spec, has_depth, lemma_ancestor_in_range, lemma_ancestor_shift,
    lemma_depth_bounded, lemma_layers_members, lemma_layers_no_duplicates,
    lemma_layers_parent_first, parent_links,
};
use crate::pose::{
    bones_after_clips, initial_bones, lemma_clips_keep_skeleton, lemma_rest_worlds_len,
    local_outcome, local_transform, locals_are_outcomes, parent_world, pose_evaluated,
    rest_worlds, skin_finalized, slot_kept, unconstrained_worlds, valid_parent, worlds_with,
    AnimationTransforms,
};
use crate::sampling::FramePosition;
use crate::skeleton::{BoneData, MAX_BONE_COUNT};

verus! {

/// Whether `order` lists bones of `bones`, none of them twice, each after
/// its parent.
pub open spec fn order_is_sound(bones: Seq<AnimatedBone>, order: Seq<usize>) -> bool {
    &&& order.no_duplicates()
    &&& forall|k: int| 0 <= k < order.len() ==> (#[trigger] order[k]) < bones.len()
    &&& forall|k: int|
        0 <= k < order.len() ==> match valid_parent(bones, bones[#[trigger] order[k] as int]) {
            Some(p) => exists|j: int| 0 <= j < k && order[j] == p,
            None => true,
        }
}

/// The evaluation order of a skeleton is sound.
pub proof fn lemma_evaluation_order_is_sound(bones: Seq<AnimatedBone>)
    requires
        bones.len() <= usize::MAX,
    ensures
        order_is_sound(bones, evaluation_order_spec(parent_links(bones))),
{
    let links = parent_links(bones);
    let order = evaluation_order_spec(links);
    lemma_layers_no_duplicates(links, links.len());
    lemma_layers_members(links, links.len());
    lemma_layers_parent_first(links, links.len());
    assert forall|k: int| 0 <= k < order.len() implies match valid_parent(
        bones,
        bones[#[trigger] order[k] as int],
    ) {
        Some(p) => exists|j: int| 0 <= j < k && order[j] == p,
        None => true,
    } by {
        let i = order[k] as int;
        assert(links[i] == bones[i].bone.parent_index);
        match valid_parent(bones, bones[i]) {
            Some(p) => {
                assert(links[order[k] as int] == Some(p as usize));
                let j = choose|j: int| 0 <= j < k && order[j] == p as usize;
                assert(order[j] == p);
            },
            None => {},
        }
    }
}

/// The parent of a listed bone stands in another place of the order than any
/// bone listed from that bone on.
pub proof fn lemma_parent_elsewhere(
    bones: Seq<AnimatedBone>,
    order: Seq<usize>,
    k: int,
    later: int,
)
    requires
        order_is_sound(bones, order),
        0 <= k <= later < order.len(),
    ensures
        match valid_parent(bones, bones[order[k] as int]) {
            Some(p) => p != order[later],
            None => true,
        },
{
    match valid_parent(bones, bones[order[k] as int]) {
        Some(p) => {
            let j = choose|j: int| 0 <= j < k && order[j] == p;
            assert(order[j] != order[later]);
        },
        None => {},
    }
}

/// The rest world transform of a listed bone is that of its parent times
/// the bone's own rest transform, and the rest transform itself for a bone
/// without a parent.
pub proof fn lemma_rest_world_of_bone(
    bones: Seq<AnimatedBone>,
    order: Seq<usize>,
    count: nat,
    k: int,
)
    requires
        bones.len() <= MAX_BONE_COUNT,
        order_is_sound(bones, order),
        0 <= k < count <= order.len(),
    ensures
        rest_worlds(bones, order, count)[order[k] as int] == match valid_parent(
            bones,
            bones[order[k] as int],
        ) {
            Some(p) => matrix_product(
                rest_worlds(bones, order, count)[p],
                bones[order[k] as int].bone.transform,
            ),
            None => bones[order[k] as int].bone.transform,
        },
    decreases count,
{
    let i = order[k] as int;
    let last = order[count - 1] as int;
    let before = rest_worlds(bones, order, (count - 1) as nat);
    let after = rest_worlds(bones, order, count);
    lemma_rest_worlds_len(bones, order, (count - 1) as nat);
    lemma_parent_elsewhere(bones, order, k, count - 1);
    if k < count - 1 {
        lemma_rest_world_of_bone(bones, order, (count - 1) as nat, k);
        assert(order[k] != order[count - 1]);
        assert(after[i] == before[i]);
    }
    match valid_parent(bones, bones[i]) {
        Some(p) => {
            assert(after[p] == before[p]);
        },
        None => {},
    }
}

/// Whether the constraints leave the bone called `name` alone.
pub open spec fn is_unconstrained(hlpb: Option<&HlpbData>, name: Seq<char>) -> bool {
    match hlpb {
        Some(h) => no_orient(h.orient_constraints@, name) && no_aim(h.aim_constraints@, name),
        None => true,
    }
}

/// The world transform of a listed bone is that of its parent times the
/// local transform that the bone was placed with, in the identity for a
/// bone without a parent.
pub proof fn lemma_world_of_bone(
    world: Seq<glam::Mat4>,
    bones: Seq<AnimatedBone>,
    order: Seq<usize>,
    locals: Seq<glam::Mat4>,
    count: nat,
    k: int,
)
    requires
        bones.len() <= MAX_BONE_COUNT,
        world.len() == MAX_BONE_COUNT,
        order_is_sound(bones, order),
        0 <= k < count <= order.len(),
    ensures
        worlds_with(world, bones, order, locals, count).len() == MAX_BONE_COUNT,
        worlds_with(world, bones, order, locals, count)[order[k] as int] == matrix_product(
            parent_world(
                worlds_with(world, bones, order, locals, count),
                bones,
                bones[order[k] as int],
            ),
            locals[k],
        ),
    decreases count,
{
    let i = order[k] as int;
    let before = worlds_with(world, bones, order, locals, (count - 1) as nat);
    let after = worlds_with(world, bones, order, locals, count);
    lemma_worlds_with_len(world, bones, order, locals, (count - 1) as nat);
    lemma_parent_elsewhere(bones, order, k, count - 1);
    if k < count - 1 {
        lemma_world_of_bone(world, bones, order, locals, (count - 1) as nat, k);
        assert(order[k] != order[count - 1]);
        assert(after[i] == before[i]);
    }
    match valid_parent(bones, bones[i]) {
        Some(p) => {
            assert(after[p] == before[p]);
        },
        None => {},
    }
}

/// Placing bones keeps every slot.
pub proof fn lemma_worlds_with_len(
    world: Seq<glam::Mat4>,
    bones: Seq<AnimatedBone>,
    order: Seq<usize>,
    locals: Seq<glam::Mat4>,
    count: nat,
)
    requires
        bones.len() <= MAX_BONE_COUNT,
        world.len() == MAX_BONE_COUNT,
        count <= order.len(),
        forall|k: int| 0 <= k < order.len() ==> (#[trigger] order[k]) < bones.len(),
    ensures
        worlds_with(world, bones, order, locals, count).len() == MAX_BONE_COUNT,
    decreases count,
{
    if count > 0 {
        lemma_worlds_with_len(world, bones, order, locals, (count - 1) as nat);
    }
}

/// The skinning matrix of a bone whose world transform is its rest world
/// transform `rest`: that transform times its own inverse.
pub open spec fn rest_skin(rest: glam::Mat4) -> glam::Mat4 {
    matrix_product(rest, matrix_inverse(rest))
}

/// Placing the first `count` bones of the order leaves the slot of every
/// other bone as it was.
pub proof fn lemma_unlisted_slot_with(
    world: Seq<glam::Mat4>,
    bones: Seq<AnimatedBone>,
    order: Seq<usize>,
    locals: Seq<glam::Mat4>,
    count: nat,
    i: int,
)
    requires
        bones.len() <= MAX_BONE_COUNT,
        world.len() == MAX_BONE_COUNT,
        count <= order.len(),
        forall|k: int| 0 <= k < order.len() ==> (#[trigger] order[k]) < bones.len(),
        0 <= i < MAX_BONE_COUNT,
        !order.contains(i as usize),
    ensures
        worlds_with(world, bones, order, locals, count)[i] == world[i],
    decreases count,
{
    if count > 0 {
        lemma_unlisted_slot_with(world, bones, order, locals, (count - 1) as nat, i);
        lemma_worlds_with_len(world, bones, order, locals, (count - 1) as nat);
        assert(order[count - 1] != i as usize);
    }
}

/// Placing bones without constraints keeps every slot.
pub proof fn lemma_unconstrained_worlds_len(
    world: Seq<glam::Mat4>,
    bones: Seq<AnimatedBone>,
    order: Seq<usize>,
    count: nat,
)
    requires
        bones.len() <= MAX_BONE_COUNT,
        world.len() == MAX_BONE_COUNT,
        count <= order.len(),
        forall|k: int| 0 <= k < order.len() ==> (#[trigger] order[k]) < bones.len(),
    ensures
        unconstrained_worlds(world, bones, order, count).len() == MAX_BONE_COUNT,
    decreases count,
{
    if count > 0 {
        lemma_unconstrained_worlds_len(world, bones, order, (count - 1) as nat);
    }
}

/// Placing the first `count` bones of the order without constraints leaves
/// the slot of every other bone as it was.
pub proof fn lemma_unlisted_slot_unconstrained(
    world: Seq<glam::Mat4>,
    bones: Seq<AnimatedBone>,
    order: Seq<usize>,
    count: nat,
    i: int,
)
    requires
        bones.len() <= MAX_BONE_COUNT,
        world.len() == MAX_BONE_COUNT,
        count <= order.len(),
        forall|k: int| 0 <= k < order.len() ==> (#[trigger] order[k]) < bones.len(),
        0 <= i < MAX_BONE_COUNT,
        !order.contains(i as usize),
    ensures
        unconstrained_worlds(world, bones, order, count)[i] == world[i],
    decreases count,
{
    if count > 0 {
        lemma_unlisted_slot_unconstrained(world, bones, order, (count - 1) as nat, i);
        lemma_unconstrained_worlds_len(world, bones, order, (count - 1) as nat);
        assert(order[count - 1] != i as usize);
    }
}

/// A slot that belongs to no bone of the evaluation order comes out of the
/// evaluation as it went in: its world transform, its skinning matrix and
/// the inverse transpose of that. Such are the slots past the bones and the
/// slots of the bones whose chain of parents runs into a cycle.
pub proof fn lemma_unlisted_bone_keeps_slots<FO, FA>(
    orient: &FO,
    aim: &FA,
    hlpb: Option<&HlpbData>,
    skel_bones: &[BoneData],
    bones: Seq<AnimatedBone>,
    before: AnimationTransforms,
    after: AnimationTransforms,
    i: int,
) where
    FO: Fn(&[glam::Mat4; MAX_BONE_COUNT], &[BoneData], &OrientConstraintData, glam::Mat4) -> Option<
        glam::Mat4,
    >,
    FA: Fn(&[glam::Mat4; MAX_BONE_COUNT], &[BoneData], &AimConstraintData, glam::Mat4) -> Option<
        glam::Mat4,
    >,

    requires
        bones.len() <= MAX_BONE_COUNT,
        pose_evaluated(orient, aim, hlpb, skel_bones, bones, before, after),
        0 <= i < MAX_BONE_COUNT,
        !evaluation_order_spec(parent_links(bones)).contains(i as usize),
    ensures
        slot_kept(before, after, i),
{
    let links = parent_links(bones);
    let order = evaluation_order_spec(links);
    lemma_evaluation_order_is_sound(bones);
    let (unconstrained, locals) = choose|
        unconstrained: [glam::Mat4; MAX_BONE_COUNT],
        locals: Seq<glam::Mat4>,
    |
        {
            &&& unconstrained@ == unconstrained_worlds(
                before.world_transforms@,
                bones,
                order,
                order.len(),
            )
            &&& #[trigger] locals_are_outcomes(
                orient,
                aim,
                hlpb,
                unconstrained,
                skel_bones,
                bones,
                order,
                locals,
            )
            &&& after.world_transforms@ == worlds_with(
                unconstrained@,
                bones,
                order,
                locals,
                order.len(),
            )
            &&& skin_finalized(
                bones,
                order,
                after.world_transforms@,
                before.animated_world_transforms,
                after.animated_world_transforms,
            )
        };
    lemma_unlisted_slot_unconstrained(before.world_transforms@, bones, order, order.len(), i);
    lemma_unlisted_slot_with(unconstrained@, bones, order, locals, order.len(), i);
    assert(after.animated_world_transforms.transforms@[i]
        == before.animated_world_transforms.transforms@[i]);
}

/// Whether bone `a` is still: no clip animates it and no constraint targets
/// it.
pub open spec fn bone_is_still(hlpb: Option<&HlpbData>, bones: Seq<AnimatedBone>, a: int) -> bool {
    bones[a].anim_transform is None && is_unconstrained(hlpb, bones[a].bone.name@)
}

/// Whether bone `i` and every bone above it are still.
pub open spec fn chain_is_still(hlpb: Option<&HlpbData>, bones: Seq<AnimatedBone>, i: int) -> bool {
    forall|k: nat|
        match #[trigger] ancestor(parent_links(bones), i, k) {
            Some(a) => bone_is_still(hlpb, bones, a),
            None => true,
        }
}

/// Whether placing the rest transform of bone `a` in the identity gives
/// that transform back, where the bone has no parent among the bones.
pub open spec fn top_is_neutral(bones: Seq<AnimatedBone>, a: int) -> bool {
    valid_parent(bones, bones[a]) is None ==> matrix_product(
        identity_matrix(),
        bones[a].bone.transform,
    ) == bones[a].bone.transform
}

/// Whether bone `a` rests: it is still, and, where it has no parent among
/// the bones, placing its rest transform in the identity gives that
/// transform back.
pub open spec fn bone_rests(hlpb: Option<&HlpbData>, bones: Seq<AnimatedBone>, a: int) -> bool {
    bone_is_still(hlpb, bones, a) && top_is_neutral(bones, a)
}

/// Whether bone `i` and every bone above it rest.
pub open spec fn chain_rests(hlpb: Option<&HlpbData>, bones: Seq<AnimatedBone>, i: int) -> bool {
    forall|k: nat|
        match #[trigger] ancestor(parent_links(bones), i, k) {
            Some(a) => bone_rests(hlpb, bones, a),
            None => true,
        }
}

/// The rest pose of bone `i`, a bone of depth `d`, placed in the world: the
/// rest transforms along its chain of parents, multiplied from the top of
/// the chain down, the topmost placed in the identity.
pub open spec fn placed_rest_world(bones: Seq<AnimatedBone>, i: int, d: nat) -> glam::Mat4
    decreases d,
{
    match valid_parent(bones, bones[i]) {
        Some(p) => if d > 0 {
            matrix_product(placed_rest_world(bones, p, (d - 1) as nat), bones[i].bone.transform)
        } else {
            matrix_product(identity_matrix(), bones[i].bone.transform)
        },
        None => matrix_product(identity_matrix(), bones[i].bone.transform),
    }
}

/// Every bone above a still chain heads a still chain.
pub proof fn lemma_still_chain_of_parent(
    hlpb: Option<&HlpbData>,
    bones: Seq<AnimatedBone>,
    i: int,
    p: int,
)
    requires
        0 <= i < bones.len(),
        valid_parent(bones, bones[i]) == Some(p),
        chain_is_still(hlpb, bones, i),
    ensures
        chain_is_still(hlpb, bones, p),
{
    let links = parent_links(bones);
    assert(links[i] == bones[i].bone.parent_index);
    assert forall|m: nat|
        match #[trigger] ancestor(links, p, m) {
            Some(a) => bone_is_still(hlpb, bones, a),
            None => true,
        } by {
        lemma_ancestor_shift(links, i, p as usize, m);
        assert(ancestor(links, i, m + 1) == ancestor(links, p, m));
    }
}

/// A still bone below still bones is placed as its rest pose is, by
/// induction on its depth.
pub proof fn lemma_still_chain_at_depth<FO, FA>(
    orient: &FO,
    aim: &FA,
    hlpb: Option<&HlpbData>,
    unconstrained: [glam::Mat4; MAX_BONE_COUNT],
    skel_bones: &[BoneData],
    bones: Seq<AnimatedBone>,
    locals: Seq<glam::Mat4>,
    i: int,
    d: nat,
) where
    FO: Fn(&[glam::Mat4; MAX_BONE_COUNT], &[BoneData], &OrientConstraintData, glam::Mat4) -> Option<
        glam::Mat4,
    >,
    FA: Fn(&[glam::Mat4; MAX_BONE_COUNT], &[BoneData], &AimConstraintData, glam::Mat4) -> Option<
        glam::Mat4,
    >,

    requires
        bones.len() <= MAX_BONE_COUNT,
        locals_are_outcomes(
            orient,
            aim,
            hlpb,
            unconstrained,
            skel_bones,
            bones,
            evaluation_order_spec(parent_links(bones)),
            locals,
        ),
        has_depth(parent_links(bones), i, d),
        d <= bones.len(),
        chain_is_still(hlpb, bones, i),
    ensures
        worlds_with(
            unconstrained@,
            bones,
            evaluation_order_spec(parent_links(bones)),
            locals,
            evaluation_order_spec(parent_links(bones)).len(),
        )[i] == placed_rest_world(bones, i, d),
    decreases d,
{
    let links = parent_links(bones);
    let order = evaluation_order_spec(links);
    lemma_evaluation_order_is_sound(bones);
    lemma_layers_members(links, links.len());
    assert(order.contains(i as usize));
    let k = choose|k: int| 0 <= k < order.len() && order[k] == i as usize;
    assert(links[i] == bones[i].bone.parent_index);
    assert(ancestor(links, i, 0) == Some(i));
    assert(bone_is_still(hlpb, bones, i));
    lemma_world_of_bone(unconstrained@, bones, order, locals, order.len(), k);
    assert(local_outcome(
        orient,
        aim,
        hlpb,
        unconstrained,
        skel_bones,
        bones,
        bones[order[k] as int],
        locals[k],
    ));
    assert(locals[k] == local_transform(bones, bones[i]));
    match valid_parent(bones, bones[i]) {
        Some(p) => {
            assert(has_depth(links, p, (d - 1) as nat));
            lemma_still_chain_of_parent(hlpb, bones, i, p);
            lemma_still_chain_at_depth(
                orient,
                aim,
                hlpb,
                unconstrained,
                skel_bones,
                bones,
                locals,
                p,
                (d - 1) as nat,
            );
        },
        None => {},
    }
}

/// Where the top of its chain is neutral, the rest pose of a bone placed in
/// the world is its rest world transform.
pub proof fn lemma_placed_rest_world_is_rest_world(bones: Seq<AnimatedBone>, i: int, d: nat)
    requires
        bones.len() <= MAX_BONE_COUNT,
        has_depth(parent_links(bones), i, d),
        d <= bones.len(),
        forall|k: nat|
            match #[trigger] ancestor(parent_links(bones), i, k) {
                Some(a) => top_is_neutral(bones, a),
                None => true,
            },
    ensures
        placed_rest_world(bones, i, d) == rest_worlds(
            bones,
            evaluation_order_spec(parent_links(bones)),
            evaluation_order_spec(parent_links(bones)).len(),
        )[i],
    decreases d,
{
    let links = parent_links(bones);
    let order = evaluation_order_spec(links);
    lemma_evaluation_order_is_sound(bones);
    lemma_layers_members(links, links.len());
    assert(order.contains(i as usize));
    let k = choose|k: int| 0 <= k < order.len() && order[k] == i as usize;
    assert(links[i] == bones[i].bone.parent_index);
    assert(ancestor(links, i, 0) == Some(i));
    assert(top_is_neutral(bones, i));
    lemma_rest_world_of_bone(bones, order, order.len(), k);
    match valid_parent(bones, bones[i]) {
        Some(p) => {
            assert(has_depth(links, p, (d - 1) as nat));
            assert forall|m: nat|
                match #[trigger] ancestor(links, p, m) {
                    Some(a) => top_is_neutral(bones, a),
                    None => true,
                } by {
                lemma_ancestor_shift(links, i, p as usize, m);
                assert(ancestor(links, i, m + 1) == ancestor(links, p, m));
            }
            lemma_placed_rest_world_is_rest_world(bones, p, (d - 1) as nat);
        },
        None => {},
    }
}

/// A resting chain is a still chain whose top is neutral.
pub proof fn lemma_resting_chain_parts(hlpb: Option<&HlpbData>, bones: Seq<AnimatedBone>, i: int)
    requires
        chain_rests(hlpb, bones, i),
    ensures
        chain_is_still(hlpb, bones, i),
        forall|k: nat|
            match #[trigger] ancestor(parent_links(bones), i, k) {
                Some(a) => top_is_neutral(bones, a),
                None => true,
            },
{
    assert forall|k: nat|
        match #[trigger] ancestor(parent_links(bones), i, k) {
            Some(a) => bone_is_still(hlpb, bones, a) && top_is_neutral(bones, a),
            None => true,
        } by {
        match ancestor(parent_links(bones), i, k) {
            Some(a) => {
                assert(bone_rests(hlpb, bones, a));
            },
            None => {},
        }
    }
}

/// A still bone below still bones comes out of the evaluation placed as its
/// rest pose is: its world transform is the product of the rest transforms
/// along its chain of parents, the topmost placed in the identity.
pub proof fn lemma_still_chain_is_placed_at_rest<FO, FA>(
    orient: &FO,
    aim: &FA,
    hlpb: Option<&HlpbData>,
    skel_bones: &[BoneData],
    bones: Seq<AnimatedBone>,
    before: AnimationTransforms,
    after: AnimationTransforms,
    i: int,
    d: nat,
) where
    FO: Fn(&[glam::Mat4; MAX_BONE_COUNT], &[BoneData], &OrientConstraintData, glam::Mat4) -> Option<
        glam::Mat4,
    >,
    FA: Fn(&[glam::Mat4; MAX_BONE_COUNT], &[BoneData], &AimConstraintData, glam::Mat4) -> Option<
        glam::Mat4,
    >,

    requires
        bones.len() <= MAX_BONE_COUNT,
        pose_evaluated(orient, aim, hlpb, skel_bones, bones, before, after),
        has_depth(parent_links(bones), i, d),
        chain_is_still(hlpb, bones, i),
    ensures
        after.world_transforms@[i] == placed_rest_world(bones, i, d),
{
    let links = parent_links(bones);
    let order = evaluation_order_spec(links);
    lemma_depth_bounded(links, i, d);
    let (unconstrained, locals) = choose|
        unconstrained: [glam::Mat4; MAX_BONE_COUNT],
        locals: Seq<glam::Mat4>,
    |
        {
            &&& unconstrained@ == unconstrained_worlds(
                before.world_transforms@,
                bones,
                order,
                order.len(),
            )
            &&& #[trigger] locals_are_outcomes(
                orient,
                aim,
                hlpb,
                unconstrained,
                skel_bones,
                bones,
                order,
                locals,
            )
            &&& after.world_transforms@ == worlds_with(
                unconstrained@,
                bones,
                order,
                locals,
                order.len(),
            )
            &&& skin_finalized(
                bones,
                order,
                after.world_transforms@,
                before.animated_world_transforms,
                after.animated_world_transforms,
            )
        };
    lemma_still_chain_at_depth(
        orient,
        aim,
        hlpb,
        unconstrained,
        skel_bones,
        bones,
        locals,
        i,
        d,
    );
}

/// A bone that no clip animates and no constraint targets, below ancestors
/// of the same kind, comes out of the evaluation with the world transform
/// of its rest pose, and with the skinning matrix that the rest pose has
/// against itself.
///
/// The bone at the top of the chain is placed in the identity; the lemma
/// asks that this product gives the bone's rest transform back.
pub proof fn lemma_resting_chain_keeps_rest_pose<FO, FA>(
    orient: &FO,
    aim: &FA,
    hlpb: Option<&HlpbData>,
    skel_bones: &[BoneData],
    bones: Seq<AnimatedBone>,
    before: AnimationTransforms,
    after: AnimationTransforms,
    i: int,
) where
    FO: Fn(&[glam::Mat4; MAX_BONE_COUNT], &[BoneData], &OrientConstraintData, glam::Mat4) -> Option<
        glam::Mat4,
    >,
    FA: Fn(&[glam::Mat4; MAX_BONE_COUNT], &[BoneData], &AimConstraintData, glam::Mat4) -> Option<
        glam::Mat4,
    >,

    requires
        bones.len() <= MAX_BONE_COUNT,
        pose_evaluated(orient, aim, hlpb, skel_bones, bones, before, after),
        0 <= i < bones.len(),
        evaluation_order_spec(parent_links(bones)).contains(i as usize),
        chain_rests(hlpb, bones, i),
    ensures
        after.world_transforms@[i] == rest_worlds(
            bones,
            evaluation_order_spec(parent_links(bones)),
            evaluation_order_spec(parent_links(bones)).len(),
        )[i],
        after.animated_world_transforms.transforms@[i] == rest_skin(
            rest_worlds(
                bones,
                evaluation_order_spec(parent_links(bones)),
                evaluation_order_spec(parent_links(bones)).len(),
            )[i],
        ),
        after.animated_world_transforms.transforms_inv_transpose@[i] == matrix_transpose(
            matrix_inverse(
                rest_skin(
                    rest_worlds(
                        bones,
                        evaluation_order_spec(parent_links(bones)),
                        evaluation_order_spec(parent_links(bones)).len(),
                    )[i],
                ),
            ),
        ),
{
    let links = parent_links(bones);
    let order = evaluation_order_spec(links);
    lemma_layers_members(links, links.len());
    let k = choose|k: int| 0 <= k < order.len() && order[k] == i as usize;
    let d = choose|d: nat| d <= links.len() && has_depth(links, order[k] as int, d);
    lemma_resting_chain_parts(hlpb, bones, i);
    lemma_still_chain_is_placed_at_rest(
        orient,
        aim,
        hlpb,
        skel_bones,
        bones,
        before,
        after,
        i,
        d,
    );
    lemma_placed_rest_world_is_rest_world(bones, i, d);
    assert(after.animated_world_transforms.transforms@[i] == matrix_product(
        after.world_transforms@[i],
        matrix_inverse(rest_worlds(bones, order, order.len())[i]),
    ));
}

/// The rest world transforms depend on the skeleton alone, not on what the
/// clips have made of its bones.
pub proof fn lemma_rest_worlds_by_skeleton(
    a: Seq<AnimatedBone>,
    b: Seq<AnimatedBone>,
    order: Seq<usize>,
    count: nat,
)
    requires
        same_skeleton(a, b),
        count <= order.len(),
        forall|k: int| 0 <= k < order.len() ==> (#[trigger] order[k]) < a.len(),
    ensures
        rest_worlds(a, order, count) == rest_worlds(b, order, count),
    decreases count,
{
    if count > 0 {
        lemma_rest_worlds_by_skeleton(a, b, order, (count - 1) as nat);
        let i = order[count - 1] as int;
        assert(a[i].bone == b[i].bone);
    }
}

/// The parent links depend on the skeleton alone.
pub proof fn lemma_links_by_skeleton(a: Seq<AnimatedBone>, b: Seq<AnimatedBone>)
    requires
        same_skeleton(a, b),
    ensures
        parent_links(a) == parent_links(b),
{
    assert forall|k: int| 0 <= k < a.len() implies parent_links(a)[k] == parent_links(b)[k] by {
        assert(a[k].bone == b[k].bone);
    }
    assert(parent_links(a) =~= parent_links(b));
}

/// A bone that no transform track of the clips animates is unchanged after
/// any number of them.
pub proof fn lemma_unanimated_through_clips(
    start: Seq<AnimatedBone>,
    anims: Seq<&AnimData>,
    frame: FramePosition,
    k: int,
    count: nat,
)
    requires
        0 <= k < start.len(),
        count <= anims.len(),
        forall|c: int| 0 <= c < anims.len() ==> clip_spares(*#[trigger] anims[c], start, k),
    ensures
        bones_after_clips(start, anims, frame, count)[k] == start[k],
    decreases count,
{
    if count > 0 {
        let before = bones_after_clips(start, anims, frame, (count - 1) as nat);
        lemma_unanimated_through_clips(start, anims, frame, k, (count - 1) as nat);
        lemma_clips_keep_skeleton(start, anims, frame, (count - 1) as nat);
        assert(clip_spares(*anims[count - 1], start, k));
        lemma_unmatched_bone_untouched(start, before, *anims[count - 1], frame, k);
    }
}

/// Whether bone `a` of the skeleton is spared: no transform track of the
/// clips animates it and no constraint targets it.
pub open spec fn bone_is_spared(
    hlpb: Option<&HlpbData>,
    anims: Seq<&AnimData>,
    start: Seq<AnimatedBone>,
    a: int,
) -> bool {
    &&& forall|c: int| 0 <= c < anims.len() ==> clip_spares(*#[trigger] anims[c], start, a)
    &&& is_unconstrained(hlpb, start[a].bone.name@)
}

/// Whether bone `a` of the skeleton rests under the clips: it is spared,
/// and, where it has no parent among the bones, placing its rest transform
/// in the identity gives that transform back.
pub open spec fn bone_is_left_alone(
    hlpb: Option<&HlpbData>,
    anims: Seq<&AnimData>,
    start: Seq<AnimatedBone>,
    a: int,
) -> bool {
    bone_is_spared(hlpb, anims, start, a) && top_is_neutral(start, a)
}

/// The rest pose of a bone placed in the world depends on the skeleton
/// alone.
pub proof fn lemma_placed_rest_world_by_skeleton(
    a: Seq<AnimatedBone>,
    b: Seq<AnimatedBone>,
    i: int,
    d: nat,
)
    requires
        same_skeleton(a, b),
        has_depth(parent_links(a), i, d),
    ensures
        placed_rest_world(a, i, d) == placed_rest_world(b, i, d),
    decreases d,
{
    assert(a[i].bone == b[i].bone);
    assert(parent_links(a)[i] == a[i].bone.parent_index);
    match valid_parent(a, a[i]) {
        Some(p) => {
            if d > 0 {
                lemma_placed_rest_world_by_skeleton(a, b, p, (d - 1) as nat);
            }
        },
        None => {},
    }
}

/// The bones that the clips spare along a chain, not animated before the
/// clips, are still after them.
pub proof fn lemma_spared_chain_is_still(
    hlpb: Option<&HlpbData>,
    start: Seq<AnimatedBone>,
    anims: Seq<&AnimData>,
    frame: FramePosition,
    i: int,
)
    requires
        forall|k: int| 0 <= k < start.len() ==> (#[trigger] start[k]).anim_transform is None,
        forall|k: nat|
            match #[trigger] ancestor(parent_links(start), i, k) {
                Some(a) => bone_is_spared(hlpb, anims, start, a),
                None => true,
            },
    ensures
        chain_is_still(hlpb, bones_after_clips(start, anims, frame, anims.len()), i),
{
    let bones = bones_after_clips(start, anims, frame, anims.len());
    let links = parent_links(start);
    lemma_clips_keep_skeleton(start, anims, frame, anims.len());
    lemma_links_by_skeleton(bones, start);
    assert forall|k: nat|
        match #[trigger] ancestor(parent_links(bones), i, k) {
            Some(a) => bone_is_still(hlpb, bones, a),
            None => true,
        } by {
        match ancestor(links, i, k) {
            Some(a) => {
                lemma_ancestor_in_range(links, i, k);
                assert(bone_is_spared(hlpb, anims, start, a));
                lemma_unanimated_through_clips(start, anims, frame, a, anims.len());
                assert(bones[a] == start[a]);
                assert(start[a].anim_transform is None);
            },
            None => {},
        }
    }
}

/// A bone of the skeleton that no transform track of any clip animates and
/// no constraint targets, below ancestors of the same kind, comes out of
/// `animate_skel` placed as its rest pose is: its world transform is the
/// product of the rest transforms along its chain of parents, the topmost
/// placed in the identity.
pub proof fn lemma_unanimated_bone_is_placed_at_rest<FO, FA>(
    orient: &FO,
    aim: &FA,
    hlpb: Option<&HlpbData>,
    skel_bones: &[BoneData],
    skeleton: Seq<BoneData>,
    anims: Seq<&AnimData>,
    frame: FramePosition,
    before: AnimationTransforms,
    after: AnimationTransforms,
    i: int,
    d: nat,
) where
    FO: Fn(&[glam::Mat4; MAX_BONE_COUNT], &[BoneData], &OrientConstraintData, glam::Mat4) -> Option<
        glam::Mat4,
    >,
    FA: Fn(&[glam::Mat4; MAX_BONE_COUNT], &[BoneData], &AimConstraintData, glam::Mat4) -> Option<
        glam::Mat4,
    >,

    requires
        pose_evaluated(
            orient,
            aim,
            hlpb,
            skel_bones,
            bones_after_clips(initial_bones(skeleton), anims, frame, anims.len()),
            before,
            after,
        ),
        has_depth(parent_links(initial_bones(skeleton)), i, d),
        forall|k: nat|
            match #[trigger] ancestor(parent_links(initial_bones(skeleton)), i, k) {
                Some(a) => bone_is_spared(hlpb, anims, initial_bones(skeleton), a),
                None => true,
            },
    ensures
        after.world_transforms@[i] == placed_rest_world(initial_bones(skeleton), i, d),
{
    let start = initial_bones(skeleton);
    let bones = bones_after_clips(start, anims, frame, anims.len());
    lemma_clips_keep_skeleton(start, anims, frame, anims.len());
    lemma_links_by_skeleton(bones, start);
    lemma_spared_chain_is_still(hlpb, start, anims, frame, i);
    lemma_still_chain_is_placed_at_rest(
        orient,
        aim,
        hlpb,
        skel_bones,
        bones,
        before,
        after,
        i,
        d,
    );
    lemma_placed_rest_world_by_skeleton(bones, start, i, d);
}

/// A bone of the skeleton that no transform track of any clip animates and
/// no constraint targets, below ancestors of the same kind, comes out of
/// `animate_skel` with the world transform of its rest pose, and with the
/// skinning matrix that the rest pose has against itself.
///
/// The bone at the top of the chain is placed in the identity; the lemma
/// asks that this product gives the bone's rest transform back.
pub proof fn lemma_unanimated_bone_keeps_rest_pose<FO, FA>(
    orient: &FO,
    aim: &FA,
    hlpb: Option<&HlpbData>,
    skel_bones: &[BoneData],
    skeleton: Seq<BoneData>,
    anims: Seq<&AnimData>,
    frame: FramePosition,
    before: AnimationTransforms,
    after: AnimationTransforms,
    i: int,
) where
    FO: Fn(&[glam::Mat4; MAX_BONE_COUNT], &[BoneData], &OrientConstraintData, glam::Mat4) -> Option<
        glam::Mat4,
    >,
    FA: Fn(&[glam::Mat4; MAX_BONE_COUNT], &[BoneData], &AimConstraintData, glam::Mat4) -> Option<
        glam::Mat4,
    >,

    requires
        pose_evaluated(
            orient,
            aim,
            hlpb,
            skel_bones,
            bones_after_clips(initial_bones(skeleton), anims, frame, anims.len()),
            before,
            after,
        ),
        0 <= i < initial_bones(skeleton).len(),
        evaluation_order_spec(parent_links(initial_bones(skeleton))).contains(i as usize),
        forall|k: nat|
            match #[trigger] ancestor(parent_links(initial_bones(skeleton)), i, k) {
                Some(a) => bone_is_left_alone(hlpb, anims, initial_bones(skeleton), a),
                None => true,
            },
    ensures
        after.world_transforms@[i] == rest_worlds(
            initial_bones(skeleton),
            evaluation_order_spec(parent_links(initial_bones(skeleton))),
            evaluation_order_spec(parent_links(initial_bones(skeleton))).len(),
        )[i],
        after.animated_world_transforms.transforms@[i] == rest_skin(
            rest_worlds(
                initial_bones(skeleton),
                evaluation_order_spec(parent_links(initial_bones(skeleton))),
                evaluation_order_spec(parent_links(initial_bones(skeleton))).len(),
            )[i],
        ),
        after.animated_world_transforms.transforms_inv_transpose@[i] == matrix_transpose(
            matrix_inverse(
                rest_skin(
                    rest_worlds(
                        initial_bones(skeleton),
                        evaluation_order_spec(parent_links(initial_bones(skeleton))),
                        evaluation_order_spec(parent_links(initial_bones(skeleton))).len(),
                    )[i],
                ),
            ),
        ),
{
    let start = initial_bones(skeleton);
    let bones = bones_after_clips(start, anims, frame, anims.len());
    let links = parent_links(start);
    let order = evaluation_order_spec(links);
    lemma_clips_keep_skeleton(start, anims, frame, anims.len());
    lemma_links_by_skeleton(bones, start);
    lemma_layers_members(links, links.len());
    lemma_rest_worlds_by_skeleton(bones, start, order, order.len());
    assert(chain_rests(hlpb, bones, i)) by {
        assert forall|k: nat|
            match #[trigger] ancestor(parent_links(bones), i, k) {
                Some(a) => bone_rests(hlpb, bones, a),
                None => true,
            } by {
            match ancestor(links, i, k) {
                Some(a) => {
                    lemma_ancestor_in_range(links, i, k);
                    assert(bone_is_left_alone(hlpb, anims, start, a));
                    lemma_unanimated_through_clips(start, anims, frame, a, anims.len());
                    assert(bones[a] == start[a]);
                },
                None => {},
            }
        }
    }
    lemma_resting_chain_keeps_rest_pose(
        orient,
        aim,
        hlpb,
        skel_bones,
        bones,
        before,
        after,
        i,
    );
}

} // verus!
