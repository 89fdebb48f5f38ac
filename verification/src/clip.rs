//! Animation clips, and how the transform tracks of a clip land on bones.

use vstd::prelude::*;
use crate::animated_bone::AnimatedBone;
use crate::sampling::{frame_value, sampled, FramePosition};
use crate::skeleton::BoneData;
use crate::transform::{AnimTransform, TransformFlags};

verus! {

/// What the tracks of a group animate.
#[derive(Debug, Clone, Copy, PartialEq, Eq)]
pub enum GroupType {
    Transform,
    Visibility,
    Material,
    Camera,
}

/// The keys of a track, one for every frame.
///
/// Keys that are plain numbers are not held here: `UvTransform`, `Float` and
/// `Vector4` record the kind of the track and nothing more.
#[derive(Debug, Clone)]
pub enum TrackValues {
    Transform(Vec<AnimTransform>),
    UvTransform,
    Float,
    PatternIndex(Vec<u32>),
    Boolean(Vec<bool>),
    Vector4,
}

/// One animated property.
#[derive(Debug, Clone)]
pub struct TrackData {
    pub name: String,
    /// Whether the scale of the parent bone is cancelled.
    pub compensate_scale: bool,
    pub transform_flags: TransformFlags,
    pub values: TrackValues,
}

/// The tracks that animate one named thing: a bone, a mesh, a material.
#[derive(Debug, Clone)]
pub struct NodeData {
    pub name: String,
    pub tracks: Vec<TrackData>,
}

/// The nodes of one kind.
#[derive(Debug, Clone)]
pub struct GroupData {
    pub group_type: GroupType,
    pub nodes: Vec<NodeData>,
}

/// An animation clip.
#[derive(Debug, Clone)]
pub struct AnimData {
    pub major_version: u16,
    pub minor_version: u16,
    pub groups: Vec<GroupData>,
}

/// Whether `k` is the first bone with this name.
pub open spec fn is_first_named(bones: Seq<AnimatedBone>, name: Seq<char>, k: int) -> bool {
    &&& 0 <= k < bones.len()
    &&& bones[k].bone.name@ == name
    &&& forall|j: int| 0 <= j < k ==> (#[trigger] bones[j]).bone.name@ != name
}

/// Whether the first track of `node` holds transform keys.
pub open spec fn has_transform_track(node: NodeData) -> bool {
    node.tracks.len() > 0 && node.tracks[0].values is Transform
}

/// The transform keys of the first track of `node`.
pub open spec fn transform_keys(node: NodeData) -> Seq<AnimTransform>
    recommends
        has_transform_track(node),
{
    node.tracks[0].values->Transform_0@
}

/// Whether `node` animates bone `k`: it names the bone, no earlier bone has
/// the name, and its first track holds transform keys.
pub open spec fn node_animates(node: NodeData, bones: Seq<AnimatedBone>, k: int) -> bool {
    is_first_named(bones, node.name@, k) && has_transform_track(node)
}

/// The bone as the first track of `node` animates it at `frame`.
pub open spec fn bone_under_node<'a>(
    bone: AnimatedBone<'a>,
    node: NodeData,
    frame: FramePosition,
) -> AnimatedBone<'a> {
    AnimatedBone {
        bone: bone.bone,
        anim_transform: Some(sampled(transform_keys(node), frame)),
        compensate_scale: node.tracks[0].compensate_scale,
        flags: node.tracks[0].transform_flags,
    }
}

/// The bones after one node has been applied.
pub open spec fn bones_after_node<'a>(
    bones: Seq<AnimatedBone<'a>>,
    node: NodeData,
    frame: FramePosition,
) -> Seq<AnimatedBone<'a>> {
    Seq::new(
        bones.len(),
        |k: int|
            if node_animates(node, bones, k) {
                bone_under_node(bones[k], node, frame)
            } else {
                bones[k]
            },
    )
}

/// The bones after the first `count` nodes have been applied, in order.
pub open spec fn bones_after_nodes<'a>(
    bones: Seq<AnimatedBone<'a>>,
    nodes: Seq<NodeData>,
    frame: FramePosition,
    count: nat,
) -> Seq<AnimatedBone<'a>>
    decreases count,
{
    if count == 0 {
        bones
    } else {
        bones_after_node(
            bones_after_nodes(bones, nodes, frame, (count - 1) as nat),
            nodes[count - 1],
            frame,
        )
    }
}

/// The bones after one group has been applied: only a group of transform
/// tracks changes them.
pub open spec fn bones_after_group<'a>(
    bones: Seq<AnimatedBone<'a>>,
    group: GroupData,
    frame: FramePosition,
) -> Seq<AnimatedBone<'a>> {
    if group.group_type is Transform {
        bones_after_nodes(bones, group.nodes@, frame, group.nodes.len() as nat)
    } else {
        bones
    }
}

/// The bones after the first `count` groups have been applied, in order.
pub open spec fn bones_after_groups<'a>(
    bones: Seq<AnimatedBone<'a>>,
    groups: Seq<GroupData>,
    frame: FramePosition,
    count: nat,
) -> Seq<AnimatedBone<'a>>
    decreases count,
{
    if count == 0 {
        bones
    } else {
        bones_after_group(
            bones_after_groups(bones, groups, frame, (count - 1) as nat),
            groups[count - 1],
            frame,
        )
    }
}

/// The bones after a whole clip has been applied.
pub open spec fn bones_after_clip<'a>(
    bones: Seq<AnimatedBone<'a>>,
    anim: AnimData,
    frame: FramePosition,
) -> Seq<AnimatedBone<'a>> {
    bones_after_groups(bones, anim.groups@, frame, anim.groups.len() as nat)
}

/// Whether two lists hold the same bones of the skeleton, whatever the clips
/// have made of them.
pub open spec fn same_skeleton(a: Seq<AnimatedBone>, b: Seq<AnimatedBone>) -> bool {
    &&& a.len() == b.len()
    &&& forall|k: int| 0 <= k < a.len() ==> (#[trigger] a[k]).bone == b[k].bone
}

/// Whether `node` can be applied to these bones: a transform track that
/// animates a bone holds a key.
pub open spec fn node_can_be_sampled(node: NodeData, bones: Seq<AnimatedBone>) -> bool {
    (exists|k: int| node_animates(node, bones, k)) ==> transform_keys(node).len() > 0
}

/// Whether `group` can be applied to these bones.
pub open spec fn group_can_be_sampled(group: GroupData, bones: Seq<AnimatedBone>) -> bool {
    group.group_type is Transform ==> forall|m: int|
        0 <= m < group.nodes.len() ==> node_can_be_sampled(#[trigger] group.nodes[m], bones)
}

/// Whether `anim` can be applied to these bones: no track without keys
/// would be sampled.
pub open spec fn clip_can_be_sampled(anim: AnimData, bones: Seq<AnimatedBone>) -> bool {
    forall|g: int|
        0 <= g < anim.groups.len() ==> group_can_be_sampled(#[trigger] anim.groups[g], bones)
}

/// Applying a node keeps every bone of the skeleton in its place.
pub proof fn lemma_node_keeps_skeleton(
    bones: Seq<AnimatedBone>,
    node: NodeData,
    frame: FramePosition,
)
    ensures
        same_skeleton(bones_after_node(bones, node, frame), bones),
{
}

/// Applying nodes keeps every bone of the skeleton in its place.
pub proof fn lemma_nodes_keep_skeleton(
    bones: Seq<AnimatedBone>,
    nodes: Seq<NodeData>,
    frame: FramePosition,
    count: nat,
)
    ensures
        same_skeleton(bones_after_nodes(bones, nodes, frame, count), bones),
    decreases count,
{
    if count > 0 {
        lemma_nodes_keep_skeleton(bones, nodes, frame, (count - 1) as nat);
        lemma_node_keeps_skeleton(
            bones_after_nodes(bones, nodes, frame, (count - 1) as nat),
            nodes[count - 1],
            frame,
        );
    }
}

/// Applying groups keeps every bone of the skeleton in its place.
pub proof fn lemma_groups_keep_skeleton(
    bones: Seq<AnimatedBone>,
    groups: Seq<GroupData>,
    frame: FramePosition,
    count: nat,
)
    ensures
        same_skeleton(bones_after_groups(bones, groups, frame, count), bones),
    decreases count,
{
    if count > 0 {
        let before = bones_after_groups(bones, groups, frame, (count - 1) as nat);
        lemma_groups_keep_skeleton(bones, groups, frame, (count - 1) as nat);
        lemma_nodes_keep_skeleton(
            before,
            groups[count - 1].nodes@,
            frame,
            groups[count - 1].nodes.len() as nat,
        );
    }
}

/// Which bone a name finds depends on the skeleton alone.
pub proof fn lemma_first_named_by_skeleton(
    a: Seq<AnimatedBone>,
    b: Seq<AnimatedBone>,
    name: Seq<char>,
    k: int,
)
    requires
        same_skeleton(a, b),
    ensures
        is_first_named(a, name, k) == is_first_named(b, name, k),
{
    if 0 <= k < a.len() {
        assert(a[k].bone == b[k].bone);
        if is_first_named(a, name, k) {
            assert forall|j: int| 0 <= j < k implies (#[trigger] b[j]).bone.name@ != name by {
                assert(a[j].bone == b[j].bone);
            }
        }
        if is_first_named(b, name, k) {
            assert forall|j: int| 0 <= j < k implies (#[trigger] a[j]).bone.name@ != name by {
                assert(a[j].bone == b[j].bone);
            }
        }
    }
}

/// Whether a clip can be sampled depends on the skeleton alone.
pub proof fn lemma_sampling_by_skeleton(anim: AnimData, a: Seq<AnimatedBone>, b: Seq<AnimatedBone>)
    requires
        same_skeleton(a, b),
        clip_can_be_sampled(anim, b),
    ensures
        clip_can_be_sampled(anim, a),
{
    assert forall|g: int| 0 <= g < anim.groups.len() implies group_can_be_sampled(
        #[trigger] anim.groups[g],
        a,
    ) by {
        let group = anim.groups[g];
        assert(group_can_be_sampled(group, b));
        if group.group_type is Transform {
            assert forall|m: int| 0 <= m < group.nodes.len() implies node_can_be_sampled(
                #[trigger] group.nodes[m],
                a,
            ) by {
                let node = group.nodes[m];
                assert(node_can_be_sampled(node, b));
                if exists|k: int| node_animates(node, a, k) {
                    let k = choose|k: int| node_animates(node, a, k);
                    lemma_first_named_by_skeleton(a, b, node.name@, k);
                    assert(node_animates(node, b, k));
                }
            }
        }
    }
}

/// Holding the same bones of the skeleton carries over.
pub proof fn lemma_same_skeleton_chain(
    a: Seq<AnimatedBone>,
    b: Seq<AnimatedBone>,
    c: Seq<AnimatedBone>,
)
    requires
        same_skeleton(a, b),
        same_skeleton(b, c),
    ensures
        same_skeleton(a, c),
{
    assert forall|k: int| 0 <= k < a.len() implies (#[trigger] a[k]).bone == c[k].bone by {
        assert(a[k].bone == b[k].bone);
        assert(b[k].bone == c[k].bone);
    }
}

/// Whether no transform track of `anim` animates bone `k` of this skeleton.
pub open spec fn clip_spares(anim: AnimData, skeleton: Seq<AnimatedBone>, k: int) -> bool {
    forall|g: int, m: int|
        0 <= g < anim.groups.len() && 0 <= m < anim.groups[g].nodes.len() && anim.groups[g].group_type is Transform
            ==> !node_animates(#[trigger] anim.groups[g].nodes[m], skeleton, k)
}

/// A bone that no transform track of a clip animates comes out of the clip
/// as it went in.
pub proof fn lemma_unmatched_bone_untouched(
    skeleton: Seq<AnimatedBone>,
    bones: Seq<AnimatedBone>,
    anim: AnimData,
    frame: FramePosition,
    k: int,
)
    requires
        0 <= k < bones.len(),
        same_skeleton(bones, skeleton),
        clip_spares(anim, skeleton, k),
    ensures
        bones_after_clip(bones, anim, frame)[k] == bones[k],
{
    lemma_unmatched_through_groups(skeleton, bones, anim, frame, k, anim.groups.len() as nat);
}

/// A bone that no transform track of a clip animates is unchanged after any
/// number of its groups.
pub proof fn lemma_unmatched_through_groups(
    skeleton: Seq<AnimatedBone>,
    bones: Seq<AnimatedBone>,
    anim: AnimData,
    frame: FramePosition,
    k: int,
    count: nat,
)
    requires
        0 <= k < bones.len(),
        count <= anim.groups.len(),
        same_skeleton(bones, skeleton),
        clip_spares(anim, skeleton, k),
    ensures
        bones_after_groups(bones, anim.groups@, frame, count)[k] == bones[k],
    decreases count,
{
    if count > 0 {
        let before = bones_after_groups(bones, anim.groups@, frame, (count - 1) as nat);
        let group = anim.groups[count - 1];
        lemma_unmatched_through_groups(skeleton, bones, anim, frame, k, (count - 1) as nat);
        lemma_groups_keep_skeleton(bones, anim.groups@, frame, (count - 1) as nat);
        lemma_same_skeleton_chain(before, bones, skeleton);
        if group.group_type is Transform {
            assert forall|m: int| 0 <= m < group.nodes.len() implies !node_animates(
                #[trigger] group.nodes[m],
                skeleton,
                k,
            ) by {
                assert(!node_animates(anim.groups[count - 1].nodes[m], skeleton, k));
            }
            lemma_unmatched_through_nodes(
                skeleton,
                before,
                group.nodes@,
                frame,
                k,
                group.nodes.len() as nat,
            );
        }
    }
}

/// A bone that none of these nodes animates is unchanged after any number
/// of them.
pub proof fn lemma_unmatched_through_nodes(
    skeleton: Seq<AnimatedBone>,
    bones: Seq<AnimatedBone>,
    nodes: Seq<NodeData>,
    frame: FramePosition,
    k: int,
    count: nat,
)
    requires
        0 <= k < bones.len(),
        count <= nodes.len(),
        same_skeleton(bones, skeleton),
        forall|m: int| 0 <= m < nodes.len() ==> !node_animates(#[trigger] nodes[m], skeleton, k),
    ensures
        bones_after_nodes(bones, nodes, frame, count)[k] == bones[k],
    decreases count,
{
    if count > 0 {
        let before = bones_after_nodes(bones, nodes, frame, (count - 1) as nat);
        lemma_unmatched_through_nodes(skeleton, bones, nodes, frame, k, (count - 1) as nat);
        lemma_nodes_keep_skeleton(bones, nodes, frame, (count - 1) as nat);
        lemma_same_skeleton_chain(before, bones, skeleton);
        lemma_first_named_by_skeleton(before, skeleton, nodes[count - 1].name@, k);
        assert(!node_animates(nodes[count - 1], skeleton, k));
    }
}

/// The position of the first bone with this name.
pub fn find_bone(bones: &Vec<AnimatedBone>, name: &String) -> (r: Option<usize>)
    ensures
        match r {
            Some(k) => is_first_named(bones@, name@, k as int),
            None => forall|k: int| 0 <= k < bones.len() ==> (#[trigger] bones[k]).bone.name@ != name@,
        },
{
    let mut k: usize = 0;
    while k < bones.len()
        invariant
            k <= bones.len(),
            forall|j: int| 0 <= j < k ==> (#[trigger] bones[j]).bone.name@ != name@,
        decreases bones.len() - k,
    {
        if bones[k].bone.name == *name {
            return Some(k);
        }
        k += 1;
    }
    None
}

/// The bone as a transform track animates it at `frame`.
pub fn create_animated_bone<'a>(
    frame: &FramePosition,
    bone: &'a BoneData,
    track: &TrackData,
    values: &Vec<AnimTransform>,
) -> (r: AnimatedBone<'a>)
    requires
        values.len() > 0,
    ensures
        r.bone == bone,
        r.anim_transform == Some(sampled(values@, *frame)),
        r.compensate_scale == track.compensate_scale,
        r.flags == track.transform_flags,
{
    let anim_transform = frame_value(values.as_slice(), frame);
    AnimatedBone {
        bone,
        anim_transform: Some(anim_transform),
        compensate_scale: track.compensate_scale,
        flags: track.transform_flags,
    }
}

/// Applies one node of a group of transform tracks.
pub fn apply_node<'a>(bones: &mut Vec<AnimatedBone<'a>>, node: &NodeData, frame: &FramePosition)
    requires
        node_can_be_sampled(*node, old(bones)@),
    ensures
        final(bones)@ == bones_after_node(old(bones)@, *node, *frame),
{
    let ghost before = bones@;
    match find_bone(bones, &node.name) {
        Some(k) => {
            if node.tracks.len() > 0 {
                let track = &node.tracks[0];
                match &track.values {
                    TrackValues::Transform(values) => {
                        assert(node_animates(*node, before, k as int));
                        let animated = create_animated_bone(frame, bones[k].bone, track, values);
                        bones.set(k, animated);
                        assert(bones@ =~= bones_after_node(before, *node, *frame));
                    },
                    _ => {
                        assert(bones@ =~= bones_after_node(before, *node, *frame));
                    },
                }
            } else {
                assert(bones@ =~= bones_after_node(before, *node, *frame));
            }
        },
        None => {
            assert(bones@ =~= bones_after_node(before, *node, *frame));
        },
    }
}

/// Applies the transform tracks of a clip to the bones they name.
///
/// A node of a group of transform tracks animates the first bone that has
/// its name, through its first track, where that track holds transform keys.
/// The bone then carries the track's value at `frame`, its scale
/// compensation and its override flags, in place of whatever an earlier node
/// or clip gave it. Every other bone stays as it is.
pub fn apply_transforms<'a>(
    bones: &mut Vec<AnimatedBone<'a>>,
    anim: &AnimData,
    frame: &FramePosition,
)
    requires
        clip_can_be_sampled(*anim, old(bones)@),
    ensures
        final(bones)@ == bones_after_clip(old(bones)@, *anim, *frame),
        same_skeleton(final(bones)@, old(bones)@),
{
    let ghost start = bones@;
    let mut g: usize = 0;
    while g < anim.groups.len()
        invariant
            g <= anim.groups.len(),
            clip_can_be_sampled(*anim, start),
            bones@ == bones_after_groups(start, anim.groups@, *frame, g as nat),
        decreases anim.groups.len() - g,
    {
        let group = &anim.groups[g];
        let ghost group_start = bones@;
        proof {
            lemma_groups_keep_skeleton(start, anim.groups@, *frame, g as nat);
            assert(group_can_be_sampled(anim.groups[g as int], start));
        }
        match group.group_type {
            GroupType::Transform => {
                let mut m: usize = 0;
                while m < group.nodes.len()
                    invariant
                        m <= group.nodes.len(),
                        group.group_type is Transform,
                        group_can_be_sampled(*group, start),
                        same_skeleton(group_start, start),
                        bones@ == bones_after_nodes(group_start, group.nodes@, *frame, m as nat),
                    decreases group.nodes.len() - m,
                {
                    let node = &group.nodes[m];
                    proof {
                        lemma_nodes_keep_skeleton(group_start, group.nodes@, *frame, m as nat);
                        assert(node_can_be_sampled(group.nodes[m as int], start));
                        if exists|k: int| node_animates(*node, bones@, k) {
                            let k = choose|k: int| node_animates(*node, bones@, k);
                            assert(same_skeleton(bones@, start)) by {
                                assert forall|j: int| 0 <= j < bones@.len() implies (
                                #[trigger] bones@[j]).bone == start[j].bone by {
                                    assert(bones@[j].bone == group_start[j].bone);
                                    assert(group_start[j].bone == start[j].bone);
                                }
                            }
                            lemma_first_named_by_skeleton(bones@, start, node.name@, k);
                            assert(node_animates(*node, start, k));
                        }
                    }
                    apply_node(bones, node, frame);
                    m += 1;
                }
            },
            _ => {},
        }
        g += 1;
    }
    proof {
        lemma_groups_keep_skeleton(start, anim.groups@, *frame, anim.groups.len() as nat);
    }
}

/// Whether `node` can be applied to these bones.
pub fn node_is_sampleable(bones: &Vec<AnimatedBone>, node: &NodeData) -> (r: bool)
    ensures
        r == node_can_be_sampled(*node, bones@),
{
    if node.tracks.len() == 0 {
        return true;
    }
    match &node.tracks[0].values {
        TrackValues::Transform(values) => {
            if values.len() > 0 {
                return true;
            }
            match find_bone(bones, &node.name) {
                Some(k) => {
                    assert(node_animates(*node, bones@, k as int));
                    false
                },
                None => true,
            }
        },
        _ => true,
    }
}

/// Whether `anim` can be applied to these bones: whether no track without
/// keys would be sampled.
pub fn clip_is_sampleable(bones: &Vec<AnimatedBone>, anim: &AnimData) -> (r: bool)
    ensures
        r == clip_can_be_sampled(*anim, bones@),
{
    let mut g: usize = 0;
    while g < anim.groups.len()
        invariant
            g <= anim.groups.len(),
            forall|h: int| 0 <= h < g ==> group_can_be_sampled(#[trigger] anim.groups[h], bones@),
        decreases anim.groups.len() - g,
    {
        let group = &anim.groups[g];
        match group.group_type {
            GroupType::Transform => {
                let mut m: usize = 0;
                while m < group.nodes.len()
                    invariant
                        m <= group.nodes.len(),
                        g < anim.groups.len(),
                        *group == anim.groups[g as int],
                        group.group_type is Transform,
                        forall|j: int|
                            0 <= j < m ==> node_can_be_sampled(#[trigger] group.nodes[j], bones@),
                    decreases group.nodes.len() - m,
                {
                    if !node_is_sampleable(bones, &group.nodes[m]) {
                        assert(!node_can_be_sampled(anim.groups[g as int].nodes[m as int], bones@));
                        assert(!group_can_be_sampled(anim.groups[g as int], bones@));
                        return false;
                    }
                    m += 1;
                }
            },
            _ => {},
        }
        g += 1;
    }
    true
}

} // verus!
