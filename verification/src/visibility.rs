//! Visibility tracks: switching meshes on and off by name.

use vstd::prelude::*;
use crate::clip::{AnimData, GroupData, GroupType, NodeData, TrackValues};
use crate::sampling::{frame_value, sampled, FramePosition};

verus! {

/// Something with a name that can be shown or hidden.
pub trait Visibility {
    /// The name, as a sequence of characters.
    spec fn name_view(&self) -> Seq<char>;

    /// Whether the thing is shown.
    spec fn visible(&self) -> bool;

    fn name(&self) -> (r: &str)
        ensures
            r@ == self.name_view(),
    ;

    /// Shows or hides the thing. The name stays.
    fn set_visibility(&mut self, visibility: bool)
        ensures
            final(self).visible() == visibility,
            final(self).name_view() == old(self).name_view(),
    ;
}

impl Visibility for (String, bool) {
    open spec fn name_view(&self) -> Seq<char> {
        self.0@
    }

    open spec fn visible(&self) -> bool {
        self.1
    }

    fn name(&self) -> (r: &str) {
        self.0.as_str()
    }

    fn set_visibility(&mut self, visibility: bool) {
        self.1 = visibility;
    }
}

/// `str::starts_with` for a string pattern. Trusted: the answer is whether
/// the characters of `prefix` are the first characters of `text`.
#[verifier::external_body]
fn starts_with(text: &str, prefix: &str) -> (r: bool)
    ensures
        r == prefix@.is_prefix_of(text@),
{
    text.starts_with(prefix)
}

/// Whether the first track of `node` holds boolean keys.
pub open spec fn has_boolean_track(node: NodeData) -> bool {
    node.tracks.len() > 0 && node.tracks[0].values is Boolean
}

/// The boolean keys of the first track of `node`.
pub open spec fn boolean_keys(node: NodeData) -> Seq<bool>
    recommends
        has_boolean_track(node),
{
    node.tracks[0].values->Boolean_0@
}

/// Whether `node` decides the visibility of a mesh called `name`: its first
/// track holds boolean keys and the mesh's name starts with the node's.
pub open spec fn node_reaches(node: NodeData, name: Seq<char>) -> bool {
    has_boolean_track(node) && node.name@.is_prefix_of(name)
}

/// What stands decided for a mesh after one node: what the node decides,
/// or what was decided before where the node does not reach the mesh.
pub open spec fn decided_after_node(
    decided: Option<bool>,
    name: Seq<char>,
    node: NodeData,
    frame: FramePosition,
) -> Option<bool> {
    if node_reaches(node, name) {
        Some(sampled(boolean_keys(node), frame))
    } else {
        decided
    }
}

/// What stands decided for a mesh after the first `count` nodes, in order.
pub open spec fn decided_after_nodes(
    decided: Option<bool>,
    name: Seq<char>,
    nodes: Seq<NodeData>,
    frame: FramePosition,
    count: nat,
) -> Option<bool>
    decreases count,
{
    if count == 0 {
        decided
    } else {
        decided_after_node(
            decided_after_nodes(decided, name, nodes, frame, (count - 1) as nat),
            name,
            nodes[count - 1],
            frame,
        )
    }
}

/// What stands decided for a mesh after one group: only a group of
/// visibility tracks decides.
pub open spec fn decided_after_group(
    decided: Option<bool>,
    name: Seq<char>,
    group: GroupData,
    frame: FramePosition,
) -> Option<bool> {
    if group.group_type is Visibility {
        decided_after_nodes(decided, name, group.nodes@, frame, group.nodes.len() as nat)
    } else {
        decided
    }
}

/// What stands decided for a mesh after the first `count` groups, in order.
pub open spec fn decided_after_groups(
    decided: Option<bool>,
    name: Seq<char>,
    groups: Seq<GroupData>,
    frame: FramePosition,
    count: nat,
) -> Option<bool>
    decreases count,
{
    if count == 0 {
        decided
    } else {
        decided_after_group(
            decided_after_groups(decided, name, groups, frame, (count - 1) as nat),
            name,
            groups[count - 1],
            frame,
        )
    }
}

/// What a clip decides for a mesh called `name` at `frame`: the visibility
/// that the last node reaching the mesh gives it, or nothing where no node
/// reaches it.
pub open spec fn visibility_decided(name: Seq<char>, anim: AnimData, frame: FramePosition) -> Option<
    bool,
> {
    decided_after_groups(None, name, anim.groups@, frame, anim.groups.len() as nat)
}

/// The visibility of a mesh for which `decided` stands decided.
pub open spec fn shown(decided: Option<bool>, visible: bool) -> bool {
    match decided {
        Some(d) => d,
        None => visible,
    }
}

/// The visibility of a mesh after a whole clip: what the clip decides for
/// it, or what it was where the clip decides nothing.
pub open spec fn visible_after_clip(
    visible: bool,
    name: Seq<char>,
    anim: AnimData,
    frame: FramePosition,
) -> bool {
    shown(visibility_decided(name, anim, frame), visible)
}

/// Whether the visibility tracks of `anim` can be sampled for a mesh called
/// `name`: a boolean track that decides for the mesh holds a key.
pub open spec fn visibility_can_be_sampled(anim: AnimData, name: Seq<char>) -> bool {
    forall|g: int, m: int|
        0 <= g < anim.groups.len() && 0 <= m < anim.groups[g].nodes.len() && anim.groups[g].group_type is Visibility
            && node_reaches(#[trigger] anim.groups[g].nodes[m], name) ==> boolean_keys(
            anim.groups[g].nodes[m],
        ).len() > 0
}

/// Whether the visibility tracks of `anim` can be sampled for a mesh called
/// `name`.
pub fn visibility_is_sampleable(anim: &AnimData, name: &str) -> (r: bool)
    ensures
        r == visibility_can_be_sampled(*anim, name@),
{
    let mut g: usize = 0;
    while g < anim.groups.len()
        invariant
            g <= anim.groups.len(),
            forall|h: int, m: int|
                0 <= h < g && 0 <= m < anim.groups[h].nodes.len() && anim.groups[h].group_type is Visibility
                    && node_reaches(#[trigger] anim.groups[h].nodes[m], name@) ==> boolean_keys(
                    anim.groups[h].nodes[m],
                ).len() > 0,
        decreases anim.groups.len() - g,
    {
        let group = &anim.groups[g];
        match group.group_type {
            GroupType::Visibility => {
                let mut m: usize = 0;
                while m < group.nodes.len()
                    invariant
                        m <= group.nodes.len(),
                        g < anim.groups.len(),
                        *group == anim.groups[g as int],
                        group.group_type is Visibility,
                        forall|j: int|
                            0 <= j < m && node_reaches(#[trigger] group.nodes[j], name@)
                                ==> boolean_keys(group.nodes[j]).len() > 0,
                    decreases group.nodes.len() - m,
                {
                    let node = &group.nodes[m];
                    if node.tracks.len() > 0 {
                        match &node.tracks[0].values {
                            TrackValues::Boolean(values) => {
                                if values.len() == 0 && starts_with(name, node.name.as_str()) {
                                    assert(node_reaches(anim.groups[g as int].nodes[m as int], name@));
                                    return false;
                                }
                            },
                            _ => {},
                        }
                    }
                    m += 1;
                }
            },
            _ => {},
        }
        g += 1;
    }
    true
}

/// What `anim` decides for a mesh called `name` at `frame`.
///
/// A node of a group of visibility tracks decides for the mesh where the
/// name of the mesh starts with the name of the node and the first track of
/// the node holds boolean keys: it gives the mesh the key at the floor of
/// the frame. The last node that decides stands. Where none does, the
/// answer is `None` and the mesh stays as it is.
pub fn decided_visibility(anim: &AnimData, frame: &FramePosition, name: &str) -> (r: Option<bool>)
    requires
        visibility_can_be_sampled(*anim, name@),
    ensures
        r == visibility_decided(name@, *anim, *frame),
        forall|visible: bool| #[trigger]
            visible_after_clip(visible, name@, *anim, *frame) == shown(r, visible),
{
    let mut decided: Option<bool> = None;
    let mut g: usize = 0;
    while g < anim.groups.len()
        invariant
            g <= anim.groups.len(),
            visibility_can_be_sampled(*anim, name@),
            decided == decided_after_groups(None, name@, anim.groups@, *frame, g as nat),
        decreases anim.groups.len() - g,
    {
        let group = &anim.groups[g];
        let ghost group_start = decided;
        match group.group_type {
            GroupType::Visibility => {
                let mut m: usize = 0;
                while m < group.nodes.len()
                    invariant
                        m <= group.nodes.len(),
                        g < anim.groups.len(),
                        *group == anim.groups[g as int],
                        group.group_type is Visibility,
                        visibility_can_be_sampled(*anim, name@),
                        decided == decided_after_nodes(
                            group_start,
                            name@,
                            group.nodes@,
                            *frame,
                            m as nat,
                        ),
                    decreases group.nodes.len() - m,
                {
                    let node = &group.nodes[m];
                    if node.tracks.len() > 0 {
                        match &node.tracks[0].values {
                            TrackValues::Boolean(values) => {
                                if starts_with(name, node.name.as_str()) {
                                    assert(node_reaches(
                                        anim.groups[g as int].nodes[m as int],
                                        name@,
                                    ));
                                    decided = Some(frame_value(values.as_slice(), frame));
                                }
                            },
                            _ => {},
                        }
                    }
                    m += 1;
                }
            },
            _ => {},
        }
        g += 1;
    }
    decided
}

/// Shows or hides every mesh as the visibility tracks of `anim` say at
/// `frame`.
///
/// A node of a group of visibility tracks decides for every mesh whose name
/// starts with the node's name, through its first track, where that track
/// holds boolean keys: the mesh takes the key at the floor of the frame.
/// Where several nodes decide for a mesh, the last one stands. A mesh that
/// no node decides for stays as it is.
pub fn animate_visibility<V: Visibility>(anim: &AnimData, frame: &FramePosition, meshes: &mut [V])
    requires
        forall|i: int|
            0 <= i < old(meshes).len() ==> visibility_can_be_sampled(
                *anim,
                (#[trigger] old(meshes)[i]).name_view(),
            ),
    ensures
        final(meshes).len() == old(meshes).len(),
        forall|i: int|
            0 <= i < old(meshes).len() ==> {
                &&& (#[trigger] final(meshes)[i]).name_view() == old(meshes)[i].name_view()
                &&& final(meshes)[i].visible() == visible_after_clip(
                    old(meshes)[i].visible(),
                    old(meshes)[i].name_view(),
                    *anim,
                    *frame,
                )
            },
{
    let ghost start = meshes@;
    let mut g: usize = 0;
    while g < anim.groups.len()
        invariant
            g <= anim.groups.len(),
            meshes.len() == start.len(),
            forall|i: int|
                0 <= i < start.len() ==> visibility_can_be_sampled(
                    *anim,
                    (#[trigger] start[i]).name_view(),
                ),
            forall|i: int|
                0 <= i < start.len() ==> {
                    &&& (#[trigger] meshes[i]).name_view() == start[i].name_view()
                    &&& meshes[i].visible() == shown(
                        decided_after_groups(
                            None,
                            start[i].name_view(),
                            anim.groups@,
                            *frame,
                            g as nat,
                        ),
                        start[i].visible(),
                    )
                },
        decreases anim.groups.len() - g,
    {
        let group = &anim.groups[g];
        match group.group_type {
            GroupType::Visibility => {
                let mut m: usize = 0;
                while m < group.nodes.len()
                    invariant
                        m <= group.nodes.len(),
                        g < anim.groups.len(),
                        *group == anim.groups[g as int],
                        group.group_type is Visibility,
                        meshes.len() == start.len(),
                        forall|i: int|
                            0 <= i < start.len() ==> visibility_can_be_sampled(
                                *anim,
                                (#[trigger] start[i]).name_view(),
                            ),
                        forall|i: int|
                            0 <= i < start.len() ==> {
                                &&& (#[trigger] meshes[i]).name_view() == start[i].name_view()
                                &&& meshes[i].visible() == shown(
                                    decided_after_nodes(
                                        decided_after_groups(
                                            None,
                                            start[i].name_view(),
                                            anim.groups@,
                                            *frame,
                                            g as nat,
                                        ),
                                        start[i].name_view(),
                                        group.nodes@,
                                        *frame,
                                        m as nat,
                                    ),
                                    start[i].visible(),
                                )
                            },
                    decreases group.nodes.len() - m,
                {
                    let node = &group.nodes[m];
                    let ghost node_start = meshes@;
                    if node.tracks.len() > 0 {
                        match &node.tracks[0].values {
                            TrackValues::Boolean(values) => {
                                let mut i: usize = 0;
                                while i < meshes.len()
                                    invariant
                                        i <= meshes.len(),
                                        m < group.nodes.len(),
                                        g < anim.groups.len(),
                                        *group == anim.groups[g as int],
                                        *node == group.nodes[m as int],
                                        group.group_type is Visibility,
                                        has_boolean_track(*node),
                                        values@ == boolean_keys(*node),
                                        meshes.len() == start.len(),
                                        node_start.len() == start.len(),
                                        forall|j: int|
                                            0 <= j < start.len() ==> visibility_can_be_sampled(
                                                *anim,
                                                (#[trigger] start[j]).name_view(),
                                            ),
                                        forall|j: int|
                                            0 <= j < start.len() ==> {
                                                &&& (#[trigger] meshes[j]).name_view()
                                                    == start[j].name_view()
                                                &&& meshes[j].visible() == if j < i
                                                    && node_reaches(*node, start[j].name_view()) {
                                                    sampled(boolean_keys(*node), *frame)
                                                } else {
                                                    node_start[j].visible()
                                                }
                                            },
                                    decreases meshes.len() - i,
                                {
                                    if starts_with(meshes[i].name(), node.name.as_str()) {
                                        proof {
                                            assert(visibility_can_be_sampled(
                                                *anim,
                                                start[i as int].name_view(),
                                            ));
                                            assert(node_reaches(
                                                anim.groups[g as int].nodes[m as int],
                                                start[i as int].name_view(),
                                            ));
                                        }
                                        let value = frame_value(values.as_slice(), frame);
                                        meshes[i].set_visibility(value);
                                    }
                                    i += 1;
                                }
                            },
                            _ => {},
                        }
                    }
                    m += 1;
                }
            },
            _ => {},
        }
        g += 1;
    }
}

} // verus!
