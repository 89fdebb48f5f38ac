use glam::{Mat4, Quat, Vec3};
use ssbh_pose::animated_bone::AnimatedBone;
use ssbh_pose::clip::{AnimData, GroupData, GroupType, NodeData, TrackData, TrackValues};
use ssbh_pose::constraints::{AimConstraintData, HlpbData, OrientConstraintData};
use ssbh_pose::pose::{animate_skel, animate_skel_inner, AnimationTransforms};
use ssbh_pose::sampling::FramePosition;
use ssbh_pose::skeleton::{BillboardType, BoneData, SkelData, MAX_BONE_COUNT};
use ssbh_pose::transform::{AnimTransform, TransformFlags};

fn assert_matrix_close(a: Mat4, b: Mat4) {
    assert!(a.abs_diff_eq(b, 0.0001), "\nleft = {:?}\nright = {:?}", a, b);
}

fn frame_position(frame: f32) -> FramePosition {
    FramePosition {
        floor: frame.floor() as i64,
        ceil: frame.ceil() as i64,
        factor: Vec3::splat(frame - frame.floor()),
    }
}

fn bone(name: &str, transform: Mat4, parent_index: Option<usize>) -> BoneData {
    BoneData {
        name: name.to_string(),
        transform,
        parent_index,
        billboard_type: BillboardType::Disabled,
    }
}

fn skel(bones: Vec<BoneData>) -> SkelData {
    SkelData {
        major_version: 1,
        minor_version: 0,
        bones,
    }
}

fn node(name: &str, keys: Vec<AnimTransform>) -> NodeData {
    NodeData {
        name: name.to_string(),
        tracks: vec![TrackData {
            name: "Transform".to_string(),
            compensate_scale: false,
            transform_flags: TransformFlags::default(),
            values: TrackValues::Transform(keys),
        }],
    }
}

fn anim(nodes: Vec<NodeData>) -> AnimData {
    AnimData {
        major_version: 2,
        minor_version: 0,
        groups: vec![GroupData {
            group_type: GroupType::Transform,
            nodes,
        }],
    }
}

fn moved(x: f32, y: f32, z: f32) -> AnimTransform {
    AnimTransform {
        translation: Vec3::new(x, y, z),
        rotation: Quat::IDENTITY,
        scale: Vec3::ONE,
    }
}

fn no_orient(
    _world: &[Mat4; MAX_BONE_COUNT],
    _bones: &[BoneData],
    _constraint: &OrientConstraintData,
    _current: Mat4,
) -> Option<Mat4> {
    None
}

fn no_aim(
    _world: &[Mat4; MAX_BONE_COUNT],
    _bones: &[BoneData],
    _constraint: &AimConstraintData,
    _current: Mat4,
) -> Option<Mat4> {
    None
}

// Puts the target where its source stands in the world.
fn follow_source(
    world: &[Mat4; MAX_BONE_COUNT],
    bones: &[BoneData],
    constraint: &OrientConstraintData,
    _current: Mat4,
) -> Option<Mat4> {
    let source = bones
        .iter()
        .position(|b| b.name == constraint.source_bone_name)?;
    Some(world[source])
}

// Lifts the target by one along y.
fn lift(
    _world: &[Mat4; MAX_BONE_COUNT],
    _bones: &[BoneData],
    _constraint: &AimConstraintData,
    current: Mat4,
) -> Option<Mat4> {
    Some(Mat4::from_translation(Vec3::Y) * current)
}

fn follow(source: &str, target: &str) -> OrientConstraintData {
    OrientConstraintData {
        name: "follow".into(),
        parent_bone_name1: "Root".into(),
        parent_bone_name2: "Root".into(),
        source_bone_name: source.into(),
        target_bone_name: target.into(),
        unk_type: 2,
        constraint_axes: Vec3::ONE,
        quat1: Quat::IDENTITY,
        quat2: Quat::IDENTITY,
        range_min: Vec3::splat(-180.0),
        range_max: Vec3::splat(180.0),
    }
}

fn lifted(target: &str) -> AimConstraintData {
    AimConstraintData {
        name: "lift".into(),
        aim_bone_name1: "a".into(),
        aim_bone_name2: "a".into(),
        aim_type1: "DEFAULT".into(),
        aim_type2: "DEFAULT".into(),
        target_bone_name1: target.into(),
        target_bone_name2: target.into(),
        unk1: 0,
        unk2: 0,
        aim: Vec3::X,
        up: Vec3::Y,
        quat1: Quat::IDENTITY,
        quat2: Quat::IDENTITY,
    }
}

fn animate(
    transforms: &mut AnimationTransforms,
    skel: &SkelData,
    anims: &[&AnimData],
    hlpb: Option<&HlpbData>,
    frame: f32,
) {
    animate_skel(
        transforms,
        skel,
        anims,
        hlpb,
        &frame_position(frame),
        &follow_source,
        &lift,
    );
}

#[test]
fn identity_transforms_hold_the_identity_in_every_slot() {
    let transforms = AnimationTransforms::identity();
    assert_eq!(transforms.world_transforms.len(), 512);
    assert_eq!(transforms.animated_world_transforms.transforms.len(), 512);
    assert_eq!(
        transforms
            .animated_world_transforms
            .transforms_inv_transpose
            .len(),
        512
    );
    for i in 0..MAX_BONE_COUNT {
        assert_eq!(transforms.world_transforms[i], Mat4::IDENTITY);
        assert_eq!(
            transforms.animated_world_transforms.transforms[i],
            Mat4::IDENTITY
        );
        assert_eq!(
            transforms.animated_world_transforms.transforms_inv_transpose[i],
            Mat4::IDENTITY
        );
    }
}

#[test]
fn a_skeleton_without_animation_stays_in_its_rest_pose() {
    let a = Mat4::from_scale_rotation_translation(
        Vec3::new(1.0, 2.0, 3.0),
        Quat::from_rotation_x(0.5),
        Vec3::new(1.0, 2.0, 3.0),
    );
    let b = Mat4::from_rotation_translation(Quat::from_rotation_z(1.0), Vec3::new(0.0, 4.0, 0.0));
    let c = Mat4::from_translation(Vec3::new(5.0, 0.0, 0.0));
    let skel = skel(vec![
        bone("C", c, Some(2)),
        bone("A", a, None),
        bone("B", b, Some(1)),
    ]);
    let mut transforms = AnimationTransforms::identity();
    animate(&mut transforms, &skel, &[], None, 0.0);

    // The rest world transform of a bone is that of its parent times its own rest transform.
    assert_eq!(transforms.world_transforms[1], Mat4::IDENTITY * a);
    assert_eq!(transforms.world_transforms[2], (Mat4::IDENTITY * a) * b);
    assert_eq!(transforms.world_transforms[0], ((Mat4::IDENTITY * a) * b) * c);
    for i in 0..3 {
        assert_matrix_close(
            transforms.animated_world_transforms.transforms[i],
            Mat4::IDENTITY,
        );
        assert_matrix_close(
            transforms.animated_world_transforms.transforms_inv_transpose[i],
            Mat4::IDENTITY,
        );
    }
}

#[test]
fn a_bone_that_no_track_names_stays_in_its_rest_pose() {
    let a = Mat4::from_translation(Vec3::new(1.0, 2.0, 3.0));
    let b = Mat4::from_scale(Vec3::new(2.0, 2.0, 2.0));
    let skel = skel(vec![
        bone("A", a, None),
        bone("B", b, Some(0)),
        bone("other", Mat4::IDENTITY, None),
    ]);
    let mut transforms = AnimationTransforms::identity();
    animate(
        &mut transforms,
        &skel,
        &[&anim(vec![node("other", vec![moved(9.0, 9.0, 9.0)])])],
        None,
        0.0,
    );
    assert_eq!(transforms.world_transforms[0], a);
    assert_eq!(transforms.world_transforms[1], a * b);
    assert_matrix_close(
        transforms.world_transforms[2],
        Mat4::from_translation(Vec3::new(9.0, 9.0, 9.0)),
    );
}

#[test]
fn a_bone_at_rest_moves_with_an_animated_parent() {
    let skel = skel(vec![
        bone("A", Mat4::IDENTITY, None),
        bone("B", Mat4::from_translation(Vec3::new(0.0, 1.0, 0.0)), Some(0)),
    ]);
    let mut transforms = AnimationTransforms::identity();
    animate(
        &mut transforms,
        &skel,
        &[&anim(vec![node("A", vec![moved(5.0, 0.0, 0.0)])])],
        None,
        0.0,
    );
    assert_matrix_close(
        transforms.world_transforms[1],
        Mat4::from_translation(Vec3::new(5.0, 1.0, 0.0)),
    );
    assert_matrix_close(
        transforms.animated_world_transforms.transforms[1],
        Mat4::from_translation(Vec3::new(5.0, 0.0, 0.0)),
    );
}

#[test]
fn skinning_matrices_are_relative_to_the_rest_pose() {
    let rest = Mat4::from_translation(Vec3::new(1.0, 2.0, 3.0));
    let skel = skel(vec![bone("A", rest, None)]);
    let key = AnimTransform {
        translation: Vec3::new(4.0, 5.0, 6.0),
        rotation: Quat::IDENTITY,
        scale: Vec3::new(2.0, 2.0, 2.0),
    };
    let mut transforms = AnimationTransforms::identity();
    animate(
        &mut transforms,
        &skel,
        &[&anim(vec![node("A", vec![key])])],
        None,
        0.0,
    );
    let world = Mat4::from_scale_rotation_translation(key.scale, key.rotation, key.translation);
    let skin = world * rest.inverse();
    assert_matrix_close(transforms.world_transforms[0], world);
    assert_matrix_close(transforms.animated_world_transforms.transforms[0], skin);
    assert_matrix_close(
        transforms.animated_world_transforms.transforms_inv_transpose[0],
        skin.inverse().transpose(),
    );
    // The rest position of the bone is carried to its animated position.
    let carried = transforms.animated_world_transforms.transforms[0]
        .transform_point3(Vec3::new(1.0, 2.0, 3.0));
    assert!(carried.abs_diff_eq(Vec3::new(4.0, 5.0, 6.0), 0.0001));
}

#[test]
fn the_track_is_sampled_between_its_keys() {
    let skel = skel(vec![bone("A", Mat4::IDENTITY, None)]);
    let mut transforms = AnimationTransforms::identity();
    animate(
        &mut transforms,
        &skel,
        &[&anim(vec![node(
            "A",
            vec![moved(0.0, 0.0, 0.0), moved(2.0, 4.0, 8.0)],
        )])],
        None,
        0.25,
    );
    assert_matrix_close(
        transforms.world_transforms[0],
        Mat4::from_translation(Vec3::new(0.5, 1.0, 2.0)),
    );
}

#[test]
fn a_child_listed_before_its_parent_is_placed_in_the_pose_of_this_frame() {
    let skel = skel(vec![
        bone("child", Mat4::IDENTITY, Some(1)),
        bone("parent", Mat4::IDENTITY, None),
    ]);
    let mut transforms = AnimationTransforms::identity();
    // What the buffer held for the parent must not reach the child.
    transforms.world_transforms[1] = Mat4::from_translation(Vec3::new(100.0, 0.0, 0.0));
    animate(
        &mut transforms,
        &skel,
        &[&anim(vec![
            node("child", vec![moved(0.0, 1.0, 0.0)]),
            node("parent", vec![moved(5.0, 0.0, 0.0)]),
        ])],
        None,
        0.0,
    );
    assert_matrix_close(
        transforms.world_transforms[0],
        Mat4::from_translation(Vec3::new(5.0, 1.0, 0.0)),
    );
}

#[test]
fn bones_on_a_cycle_keep_what_the_buffer_held() {
    let skel = skel(vec![
        bone("a", Mat4::from_scale(Vec3::splat(2.0)), Some(1)),
        bone("b", Mat4::from_scale(Vec3::splat(3.0)), Some(0)),
        bone("root", Mat4::from_translation(Vec3::X), None),
        bone("below", Mat4::from_translation(Vec3::Y), Some(0)),
    ]);
    let world = Mat4::from_translation(Vec3::new(7.0, 8.0, 9.0));
    let skin = Mat4::from_scale(Vec3::new(4.0, 5.0, 6.0));
    let normals = Mat4::from_rotation_x(1.0);
    let mut transforms = AnimationTransforms::identity();
    for i in [0, 1, 3] {
        transforms.world_transforms[i] = world;
        transforms.animated_world_transforms.transforms[i] = skin;
        transforms.animated_world_transforms.transforms_inv_transpose[i] = normals;
    }
    animate(
        &mut transforms,
        &skel,
        &[&anim(vec![
            node("a", vec![moved(1.0, 1.0, 1.0)]),
            node("below", vec![moved(2.0, 2.0, 2.0)]),
        ])],
        None,
        0.0,
    );
    // The two bones of the cycle and the bone below it keep every slot.
    for i in [0, 1, 3] {
        assert_eq!(transforms.world_transforms[i], world);
        assert_eq!(transforms.animated_world_transforms.transforms[i], skin);
        assert_eq!(
            transforms.animated_world_transforms.transforms_inv_transpose[i],
            normals
        );
    }
    // The root beside them is evaluated.
    assert_eq!(transforms.world_transforms[2], Mat4::from_translation(Vec3::X));
    assert_matrix_close(
        transforms.animated_world_transforms.transforms[2],
        Mat4::IDENTITY,
    );
}

#[test]
fn bones_on_a_cycle_keep_the_identity_of_a_fresh_buffer() {
    let skel = skel(vec![
        bone("a", Mat4::from_scale(Vec3::splat(2.0)), Some(1)),
        bone("b", Mat4::from_scale(Vec3::splat(3.0)), Some(0)),
    ]);
    let mut transforms = AnimationTransforms::identity();
    animate(
        &mut transforms,
        &skel,
        &[&anim(vec![node("a", vec![moved(1.0, 1.0, 1.0)])])],
        None,
        0.0,
    );
    for i in 0..2 {
        assert_eq!(transforms.world_transforms[i], Mat4::IDENTITY);
        assert_eq!(
            transforms.animated_world_transforms.transforms[i],
            Mat4::IDENTITY
        );
        assert_eq!(
            transforms.animated_world_transforms.transforms_inv_transpose[i],
            Mat4::IDENTITY
        );
    }
}

#[test]
fn slots_past_the_bones_are_left_alone() {
    let skel = skel(vec![bone("A", Mat4::IDENTITY, None)]);
    let held = Mat4::from_translation(Vec3::new(7.0, 8.0, 9.0));
    let mut transforms = AnimationTransforms::identity();
    transforms.world_transforms[1] = held;
    transforms.animated_world_transforms.transforms[1] = held;
    transforms.animated_world_transforms.transforms_inv_transpose[511] = held;
    animate(
        &mut transforms,
        &skel,
        &[&anim(vec![node("A", vec![moved(1.0, 1.0, 1.0)])])],
        None,
        0.0,
    );
    assert_eq!(transforms.world_transforms[1], held);
    assert_eq!(transforms.animated_world_transforms.transforms[1], held);
    assert_eq!(
        transforms.animated_world_transforms.transforms_inv_transpose[511],
        held
    );
}

#[test]
fn bones_past_the_room_are_not_evaluated() {
    let mut bones = vec![bone("A", Mat4::IDENTITY, None); 512];
    bones.push(bone("late", Mat4::IDENTITY, None));
    bones[511].name = "last".to_string();
    let skel = skel(bones);
    let mut transforms = AnimationTransforms::identity();
    animate(
        &mut transforms,
        &skel,
        &[&anim(vec![
            node("last", vec![moved(1.0, 2.0, 3.0)]),
            node("late", vec![moved(4.0, 5.0, 6.0)]),
        ])],
        None,
        0.0,
    );
    assert_matrix_close(
        transforms.world_transforms[511],
        Mat4::from_translation(Vec3::new(1.0, 2.0, 3.0)),
    );
    assert_eq!(transforms.world_transforms[510], Mat4::IDENTITY);
}

#[test]
fn a_bone_below_a_bone_past_the_room_is_placed_in_the_identity() {
    let mut bones = vec![bone("A", Mat4::IDENTITY, None); 513];
    bones[3] = bone("child", Mat4::from_translation(Vec3::Y), Some(512));
    bones[512] = bone("late", Mat4::from_translation(Vec3::X), None);
    let mut transforms = AnimationTransforms::identity();
    animate(&mut transforms, &skel(bones), &[], None, 0.0);
    assert_eq!(transforms.world_transforms[3], Mat4::from_translation(Vec3::Y));
}

#[test]
fn a_constraint_reads_the_pose_of_this_frame_without_constraints() {
    // The source stands after the target in the evaluation order.
    let skel = skel(vec![
        bone("target", Mat4::IDENTITY, None),
        bone("root", Mat4::IDENTITY, None),
        bone("source", Mat4::IDENTITY, Some(1)),
    ]);
    let hlpb = HlpbData {
        major_version: 1,
        minor_version: 0,
        aim_constraints: Vec::new(),
        orient_constraints: vec![follow("source", "target")],
    };
    let mut transforms = AnimationTransforms::identity();
    // What the buffer held for the source must not reach the target.
    transforms.world_transforms[2] = Mat4::from_translation(Vec3::new(100.0, 0.0, 0.0));
    animate(
        &mut transforms,
        &skel,
        &[&anim(vec![
            node("root", vec![moved(1.0, 0.0, 0.0)]),
            node("source", vec![moved(0.0, 2.0, 0.0)]),
        ])],
        Some(&hlpb),
        0.0,
    );
    assert_matrix_close(
        transforms.world_transforms[2],
        Mat4::from_translation(Vec3::new(1.0, 2.0, 0.0)),
    );
    assert_matrix_close(
        transforms.world_transforms[0],
        Mat4::from_translation(Vec3::new(1.0, 2.0, 0.0)),
    );
}

#[test]
fn a_constraint_does_not_read_what_another_constraint_adjusted() {
    // The source stands before the target in the evaluation order and is itself constrained.
    let skel = skel(vec![
        bone("source", Mat4::from_translation(Vec3::new(3.0, 0.0, 0.0)), None),
        bone("target", Mat4::IDENTITY, None),
    ]);
    let hlpb = HlpbData {
        major_version: 1,
        minor_version: 0,
        aim_constraints: vec![lifted("source")],
        orient_constraints: vec![follow("source", "target")],
    };
    let mut transforms = AnimationTransforms::identity();
    animate(&mut transforms, &skel, &[], Some(&hlpb), 0.0);
    assert_matrix_close(
        transforms.world_transforms[0],
        Mat4::from_translation(Vec3::new(3.0, 1.0, 0.0)),
    );
    assert_matrix_close(
        transforms.world_transforms[1],
        Mat4::from_translation(Vec3::new(3.0, 0.0, 0.0)),
    );
}

#[test]
fn a_constrained_parent_carries_its_children() {
    let skel = skel(vec![
        bone("target", Mat4::IDENTITY, None),
        bone("child", Mat4::from_translation(Vec3::new(0.0, 0.0, 1.0)), Some(0)),
        bone("source", Mat4::from_translation(Vec3::new(3.0, 0.0, 0.0)), None),
    ]);
    let hlpb = HlpbData {
        major_version: 1,
        minor_version: 0,
        aim_constraints: vec![lifted("target")],
        orient_constraints: vec![follow("source", "target")],
    };
    let mut transforms = AnimationTransforms::identity();
    animate(&mut transforms, &skel, &[], Some(&hlpb), 0.0);
    // The target follows its source and is then lifted.
    assert_matrix_close(
        transforms.world_transforms[0],
        Mat4::from_translation(Vec3::new(3.0, 1.0, 0.0)),
    );
    assert_matrix_close(
        transforms.world_transforms[1],
        Mat4::from_translation(Vec3::new(3.0, 1.0, 1.0)),
    );
    assert_matrix_close(
        transforms.animated_world_transforms.transforms[1],
        Mat4::from_translation(Vec3::new(3.0, 1.0, 0.0)),
    );
}

#[test]
fn without_constraints_no_solver_is_asked() {
    let skel = skel(vec![
        bone("target", Mat4::IDENTITY, None),
        bone("source", Mat4::from_translation(Vec3::new(3.0, 0.0, 0.0)), None),
    ]);
    let mut transforms = AnimationTransforms::identity();
    animate(&mut transforms, &skel, &[], None, 0.0);
    assert_eq!(transforms.world_transforms[0], Mat4::IDENTITY);

    let unrelated = HlpbData {
        major_version: 1,
        minor_version: 0,
        aim_constraints: vec![lifted("source2")],
        orient_constraints: vec![follow("target", "source2")],
    };
    animate(&mut transforms, &skel, &[], Some(&unrelated), 0.0);
    assert_eq!(transforms.world_transforms[0], Mat4::IDENTITY);
    assert_eq!(
        transforms.world_transforms[1],
        Mat4::from_translation(Vec3::new(3.0, 0.0, 0.0))
    );
}

#[test]
fn animate_skel_inner_evaluates_the_bones_it_is_given() {
    let skeleton = vec![
        bone("A", Mat4::IDENTITY, None),
        bone("B", Mat4::IDENTITY, Some(0)),
    ];
    let bones = vec![
        AnimatedBone {
            bone: &skeleton[0],
            anim_transform: Some(AnimTransform {
                translation: Vec3::ZERO,
                rotation: Quat::IDENTITY,
                scale: Vec3::new(2.0, 4.0, 8.0),
            }),
            compensate_scale: false,
            flags: TransformFlags::default(),
        },
        AnimatedBone {
            bone: &skeleton[1],
            anim_transform: Some(moved(1.0, 1.0, 1.0)),
            compensate_scale: true,
            flags: TransformFlags::default(),
        },
    ];
    let mut transforms = AnimationTransforms::identity();
    animate_skel_inner(&mut transforms, &bones, &skeleton, None, &no_orient, &no_aim);
    assert_matrix_close(
        transforms.world_transforms[0],
        Mat4::from_scale(Vec3::new(2.0, 4.0, 8.0)),
    );
    // The child is moved in the space of its parent, and its own axes are not scaled.
    assert_matrix_close(
        transforms.world_transforms[1],
        Mat4::from_translation(Vec3::new(2.0, 4.0, 8.0)),
    );
}
