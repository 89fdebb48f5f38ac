use glam::{Mat4, Quat, Vec3};
use ssbh_pose::animated_bone::AnimatedBone;
use ssbh_pose::clip::{AnimData, GroupData, GroupType, NodeData, TrackData, TrackValues};
use ssbh_pose::constraints::{AimConstraintData, HlpbData, OrientConstraintData};
use ssbh_pose::order::evaluation_order;
use ssbh_pose::pose::{animate_skel, AnimationTransforms};
use ssbh_pose::sampling::FramePosition;
use ssbh_pose::skeleton::{BillboardType, BoneData, SkelData, MAX_BONE_COUNT};
use ssbh_pose::transform::{AnimTransform, TransformFlags};
use ssbh_pose::visibility::animate_visibility;

fn assert_matrix_relative_eq(a: [[f32; 4]; 4], b: [[f32; 4]; 4]) {
    let close = a.iter().flatten().zip(b.iter().flatten()).all(|(a, b)| {
        let diff = (a - b).abs();
        diff <= 0.0001 || diff <= a.abs().max(b.abs()) * f32::EPSILON
    });
    assert!(
        close,
        "Matrices not equal to within 0.0001.\nleft = {:?}\nright = {:?}",
        a, b
    );
}

fn identity_bone(name: &str, parent_index: Option<usize>) -> BoneData {
    BoneData {
        name: name.to_string(),
        // Start with the identity to make this simpler.
        transform: Mat4::from_cols_array_2d(&[
            [1.0, 0.0, 0.0, 0.0],
            [0.0, 1.0, 0.0, 0.0],
            [0.0, 0.0, 1.0, 0.0],
            [0.0, 0.0, 0.0, 1.0],
        ]),
        parent_index,
        billboard_type: BillboardType::Disabled,
    }
}

fn anim_bone(bone: &BoneData) -> AnimatedBone<'_> {
    AnimatedBone {
        bone,
        anim_transform: None,
        compensate_scale: false,
        flags: TransformFlags::default(),
    }
}

fn frame_position(frame: f32) -> FramePosition {
    FramePosition {
        floor: frame.floor() as i64,
        ceil: frame.ceil() as i64,
        factor: Vec3::splat(frame - frame.floor()),
    }
}

fn transform(scale: [f32; 3], rotation: [f32; 4], translation: [f32; 3]) -> AnimTransform {
    AnimTransform {
        translation: Vec3::from(translation),
        rotation: Quat::from_array(rotation),
        scale: Vec3::from(scale),
    }
}

fn transform_node(
    name: &str,
    compensate_scale: bool,
    value: AnimTransform,
    transform_flags: TransformFlags,
) -> NodeData {
    NodeData {
        name: name.to_string(),
        tracks: vec![TrackData {
            name: "Transform".to_string(),
            compensate_scale,
            values: TrackValues::Transform(vec![value]),
            transform_flags,
        }],
    }
}

fn transform_anim(nodes: Vec<NodeData>) -> AnimData {
    AnimData {
        major_version: 2,
        minor_version: 0,
        groups: vec![GroupData {
            group_type: GroupType::Transform,
            nodes,
        }],
    }
}

fn empty_anim() -> AnimData {
    AnimData {
        major_version: 2,
        minor_version: 0,
        groups: Vec::new(),
    }
}

fn skel(bones: Vec<BoneData>) -> SkelData {
    SkelData {
        major_version: 1,
        minor_version: 0,
        bones,
    }
}

fn no_orient(
    _world: &[Mat4; MAX_BONE_COUNT],
    _bones: &[BoneData],
    _constraint: &OrientConstraintData,
    _current: Mat4,
) -> Option<Mat4> {
    None
}

fn no_aim(
    _world: &[Mat4; MAX_BONE_COUNT],
    _bones: &[BoneData],
    _constraint: &AimConstraintData,
    _current: Mat4,
) -> Option<Mat4> {
    None
}

// Gives the target the rotation that its source has in the space of the source's parent.
fn copy_orientation(
    world: &[Mat4; MAX_BONE_COUNT],
    bones: &[BoneData],
    constraint: &OrientConstraintData,
    current: Mat4,
) -> Option<Mat4> {
    let source = bones
        .iter()
        .position(|b| b.name == constraint.source_bone_name)?;
    let parent_world = bones[source]
        .parent_index
        .map(|p| world[p])
        .unwrap_or(Mat4::IDENTITY);
    let (_, source_rotation, _) =
        (parent_world.inverse() * world[source]).to_scale_rotation_translation();
    let (scale, _, translation) = current.to_scale_rotation_translation();
    Some(Mat4::from_scale_rotation_translation(
        scale,
        source_rotation,
        translation,
    ))
}

fn animate(
    transforms: &mut AnimationTransforms,
    skel: &SkelData,
    anims: &[&AnimData],
    hlpb: Option<&HlpbData>,
    frame: f32,
) {
    animate_skel(
        transforms,
        skel,
        anims,
        hlpb,
        &frame_position(frame),
        &copy_orientation,
        &no_aim,
    );
}

#[test]
fn anim_transform_to_mat4_compensation() {
    assert_matrix_relative_eq(
        [
            [0.55, 0.0, 0.0, 0.0],
            [0.0, 1.7881394e-8, 0.59999996, 0.0],
            [0.0, -0.32499996, 3.8743018e-8, 0.0],
            [1.0, 2.0, 3.0, 1.0],
        ],
        AnimTransform {
            translation: glam::vec3(1.0, 2.0, 3.0),
            rotation: glam::Quat::from_rotation_x(90.0f32.to_radians()),
            scale: glam::vec3(1.1, 1.2, 1.3),
        }
        .to_mat4(glam::vec3(0.5, 0.25, 0.5))
        .to_cols_array_2d(),
    );
}

#[test]
fn animation_transforms_from_skel_512_bones() {
    AnimationTransforms::from_skel(&skel(vec![identity_bone("A", None); 512]));
}

#[test]
fn animation_transforms_from_skel_600_bones() {
    // Make sure that this doesn't panic.
    AnimationTransforms::from_skel(&skel(vec![identity_bone("A", None); 600]));
}

#[test]
fn apply_empty_animation_512_bones() {
    animate(
        &mut AnimationTransforms::identity(),
        &skel(vec![identity_bone("A", None); 512]),
        &[&empty_anim()],
        None,
        0.0,
    );
}

#[test]
fn apply_empty_animation_too_many_bones() {
    animate(
        &mut AnimationTransforms::identity(),
        &skel(vec![identity_bone("A", None); 600]),
        &[&empty_anim()],
        None,
        0.0,
    );
}

#[test]
fn apply_empty_animation_no_bones() {
    animate(
        &mut AnimationTransforms::identity(),
        &skel(Vec::new()),
        &[&empty_anim()],
        None,
        0.0,
    );
}

#[test]
fn apply_animation_single_animated_bone() {
    // Check that the appropriate bones are set.
    // Check the construction of transformation matrices.
    let mut transforms = AnimationTransforms::identity();
    animate(
        &mut transforms,
        &skel(vec![identity_bone("A", None)]),
        &[&transform_anim(vec![transform_node(
            "A",
            false,
            transform([1.0, 2.0, 3.0], [1.0, 0.0, 0.0, 0.0], [4.0, 5.0, 6.0]),
            TransformFlags::default(),
        )])],
        None,
        0.0,
    );

    assert_matrix_relative_eq(
        [
            [1.0, 0.0, 0.0, 0.0],
            [0.0, -2.0, 0.0, 0.0],
            [0.0, 0.0, -3.0, 0.0],
            [4.0, 5.0, 6.0, 1.0],
        ],
        transforms.animated_world_transforms.transforms[0].to_cols_array_2d(),
    );
    assert_matrix_relative_eq(
        [
            [1.0 / 1.0, 0.0, 0.0, 4.0 / -1.0],
            [0.0, -1.0 / 2.0, 0.0, 5.0 / 2.0],
            [0.0, 0.0, -1.0 / 3.0, 6.0 / 3.0],
            [0.0, 0.0, 0.0, 1.0],
        ],
        transforms
            .animated_world_transforms
            .transforms_inv_transpose[0]
            .to_cols_array_2d(),
    );
    assert_matrix_relative_eq(
        [
            [1.0, 0.0, 0.0, 0.0],
            [0.0, -2.0, 0.0, 0.0],
            [0.0, 0.0, -3.0, 0.0],
            [4.0, 5.0, 6.0, 1.0],
        ],
        transforms.world_transforms[0].to_cols_array_2d(),
    );
}

#[test]
fn apply_animation_two_animations() {
    // Check that animations overlap properly.
    let mut transforms = AnimationTransforms::identity();
    let identity_rotation = [0.0, 0.0, 0.0, 1.0];
    animate(
        &mut transforms,
        &skel(vec![
            identity_bone("A", None),
            identity_bone("B", None),
            identity_bone("C", None),
        ]),
        &[
            &transform_anim(vec![
                transform_node(
                    "A",
                    false,
                    transform([1.0, 2.0, 3.0], identity_rotation, [0.0, 0.0, 0.0]),
                    TransformFlags::default(),
                ),
                transform_node(
                    "B",
                    false,
                    transform([4.0, 5.0, 6.0], identity_rotation, [0.0, 0.0, 0.0]),
                    TransformFlags::default(),
                ),
            ]),
            &transform_anim(vec![
                transform_node(
                    "B",
                    false,
                    transform([4.0, 5.0, 6.0], identity_rotation, [0.0, 0.0, 0.0]),
                    TransformFlags::default(),
                ),
                transform_node(
                    "C",
                    false,
                    transform([7.0, 8.0, 9.0], identity_rotation, [0.0, 0.0, 0.0]),
                    TransformFlags::default(),
                ),
            ]),
        ],
        None,
        0.0,
    );

    assert_matrix_relative_eq(
        [
            [1.0, 0.0, 0.0, 0.0],
            [0.0, 2.0, 0.0, 0.0],
            [0.0, 0.0, 3.0, 0.0],
            [0.0, 0.0, 0.0, 1.0],
        ],
        transforms.animated_world_transforms.transforms[0].to_cols_array_2d(),
    );
    assert_matrix_relative_eq(
        [
            [4.0, 0.0, 0.0, 0.0],
            [0.0, 5.0, 0.0, 0.0],
            [0.0, 0.0, 6.0, 0.0],
            [0.0, 0.0, 0.0, 1.0],
        ],
        transforms.animated_world_transforms.transforms[1].to_cols_array_2d(),
    );
    assert_matrix_relative_eq(
        [
            [7.0, 0.0, 0.0, 0.0],
            [0.0, 8.0, 0.0, 0.0],
            [0.0, 0.0, 9.0, 0.0],
            [0.0, 0.0, 0.0, 1.0],
        ],
        transforms.animated_world_transforms.transforms[2].to_cols_array_2d(),
    );
}

fn animate_three_bone_chain(scale: [f32; 3], compensate_scales: [bool; 3]) -> AnimationTransforms {
    let mut transforms = AnimationTransforms::identity();
    let value = transform(scale, [0.0, 0.0, 0.0, 1.0], [0.0, 0.0, 0.0]);
    animate(
        &mut transforms,
        &skel(vec![
            identity_bone("A", None),
            identity_bone("B", Some(0)),
            identity_bone("C", Some(1)),
        ]),
        &[&transform_anim(vec![
            transform_node("A", compensate_scales[0], value, TransformFlags::default()),
            transform_node("B", compensate_scales[1], value, TransformFlags::default()),
            transform_node("C", compensate_scales[2], value, TransformFlags::default()),
        ])],
        None,
        0.0,
    );
    transforms
}

fn assert_scales(transforms: &AnimationTransforms, scales: [[f32; 3]; 3]) {
    for (i, s) in scales.iter().enumerate() {
        assert_matrix_relative_eq(
            [
                [s[0], 0.0, 0.0, 0.0],
                [0.0, s[1], 0.0, 0.0],
                [0.0, 0.0, s[2], 0.0],
                [0.0, 0.0, 0.0, 1.0],
            ],
            transforms.animated_world_transforms.transforms[i].to_cols_array_2d(),
        );
    }
}

#[test]
fn apply_animation_middle_bone_no_inherit_scale_no_compensate_scale() {
    let transforms = animate_three_bone_chain([1.0, 2.0, 3.0], [false, false, false]);
    assert_scales(
        &transforms,
        [[1.0, 2.0, 3.0], [1.0, 4.0, 9.0], [1.0, 8.0, 27.0]],
    );
}

#[test]
fn apply_animation_bone_chain_inherit_scale_no_compensate_scale() {
    let transforms = animate_three_bone_chain([1.0, 2.0, 3.0], [false, false, false]);
    assert_scales(
        &transforms,
        [[1.0, 2.0, 3.0], [1.0, 4.0, 9.0], [1.0, 8.0, 27.0]],
    );
}

#[test]
fn apply_animation_bone_chain_inherit_scale_compensate_scale() {
    let transforms = animate_three_bone_chain([1.0, 2.0, 3.0], [false, false, true]);
    assert_scales(
        &transforms,
        [[1.0, 2.0, 3.0], [1.0, 4.0, 9.0], [1.0, 4.0, 9.0]],
    );
}

#[test]
fn apply_animation_bone_chain_no_inherit_scale_no_compensate_scale() {
    let transforms = animate_three_bone_chain([1.0, 2.0, 3.0], [false, false, false]);
    assert_scales(
        &transforms,
        [[1.0, 2.0, 3.0], [1.0, 4.0, 9.0], [1.0, 8.0, 27.0]],
    );
}

#[test]
fn apply_animation_bone_chain_no_inherit_scale_compensate_scale() {
    let transforms = animate_three_bone_chain([1.0, 2.0, 3.0], [false, false, true]);
    assert_scales(
        &transforms,
        [[1.0, 2.0, 3.0], [1.0, 4.0, 9.0], [1.0, 4.0, 9.0]],
    );
}

#[test]
fn apply_animation_bone_chain_override_transforms() {
    // Test resetting all transforms to their "resting" pose from the skel.
    let mut transforms = AnimationTransforms::identity();
    let value = transform([2.0, 2.0, 2.0], [1.0, 0.0, 0.0, 0.0], [0.0, 1.0, 2.0]);
    let flags = TransformFlags {
        override_translation: true,
        override_rotation: true,
        override_scale: true,
        override_compensate_scale: true,
    };
    animate(
        &mut transforms,
        &skel(vec![
            identity_bone("A", None),
            identity_bone("B", Some(0)),
            identity_bone("C", Some(1)),
        ]),
        &[&transform_anim(vec![
            transform_node("A", false, value, flags),
            transform_node("B", false, value, flags),
            transform_node("C", false, value, flags),
        ])],
        None,
        0.0,
    );

    assert_scales(
        &transforms,
        [[1.0, 1.0, 1.0], [1.0, 1.0, 1.0], [1.0, 1.0, 1.0]],
    );
}

#[test]
fn orient_constraints_chain() {
    // Bones are all at the origin but separated in the diagram for clarity.
    // Skel + Anim:
    // ^  ^
    // |  |
    // L0 L1    R0 -> <- R1

    // Skel + Anim + Hlpb (constrain L0 to R0 and L1 to R1):
    // L0 -> <- L1    R0 -> <- R1
    let l0 = identity_bone("L0", None);
    let l1 = identity_bone("L1", Some(0));
    let r0 = identity_bone("R0", None);
    let r1 = identity_bone("R1", Some(2));

    let mut transforms = AnimationTransforms::identity();

    let rotation_z = |degrees: f32| glam::Quat::from_rotation_z(degrees.to_radians()).to_array();
    let orient = |name: &str, source: &str, target: &str| OrientConstraintData {
        name: name.into(),
        parent_bone_name1: "Root".into(),
        parent_bone_name2: "Root".into(),
        source_bone_name: source.into(),
        target_bone_name: target.into(),
        unk_type: 2,
        constraint_axes: Vec3::new(1.0, 1.0, 1.0),
        quat1: Quat::from_array([0.0, 0.0, 0.0, 1.0]),
        quat2: Quat::from_array([0.0, 0.0, 0.0, 1.0]),
        range_min: Vec3::new(-180.0, -180.0, -180.0),
        range_max: Vec3::new(180.0, 180.0, 180.0),
    };

    animate(
        &mut transforms,
        &skel(vec![l0, l1, r0, r1]),
        &[&transform_anim(vec![
            transform_node(
                "L0",
                true,
                transform([1.0, 1.0, 1.0], rotation_z(0.0), [1.0, 2.0, 3.0]),
                TransformFlags::default(),
            ),
            transform_node(
                "L1",
                true,
                transform([1.0, 1.0, 1.0], rotation_z(0.0), [4.0, 5.0, 6.0]),
                TransformFlags::default(),
            ),
            transform_node(
                "R0",
                true,
                transform([1.0, 1.0, 1.0], rotation_z(90.0), [1.0, 2.0, 3.0]),
                TransformFlags::default(),
            ),
            transform_node(
                "R1",
                true,
                transform([1.0, 1.0, 1.0], rotation_z(0.0), [4.0, 5.0, 6.0]),
                TransformFlags::default(),
            ),
        ])],
        Some(&HlpbData {
            major_version: 1,
            minor_version: 0,
            aim_constraints: Vec::new(),
            orient_constraints: vec![
                orient("constraint1", "R0", "L0"),
                orient("constraint2", "R1", "L1"),
            ],
        }),
        0.0,
    );

    assert_matrix_relative_eq(
        transforms.animated_world_transforms.transforms[0].to_cols_array_2d(),
        transforms.animated_world_transforms.transforms[2].to_cols_array_2d(),
    );

    assert_matrix_relative_eq(
        transforms.animated_world_transforms.transforms[1].to_cols_array_2d(),
        transforms.animated_world_transforms.transforms[3].to_cols_array_2d(),
    );

    assert_matrix_relative_eq(
        transforms.world_transforms[0].to_cols_array_2d(),
        transforms.world_transforms[2].to_cols_array_2d(),
    );

    assert_matrix_relative_eq(
        transforms.world_transforms[1].to_cols_array_2d(),
        transforms.world_transforms[3].to_cols_array_2d(),
    );
}

#[test]
fn apply_animation_visibility() {
    // Test that the _VIS tags are ignored in name handling.
    let mut meshes = vec![
        ("A_VIS_O_OBJSHAPE".to_string(), true),
        ("B_VIS_O_OBJSHAPE".to_string(), false),
        ("C_VIS_O_OBJSHAPE".to_string(), true),
    ];

    let visibility_node = |name: &str, values: Vec<bool>| NodeData {
        name: name.to_string(),
        tracks: vec![TrackData {
            name: "Visibility".to_string(),
            compensate_scale: false,
            values: TrackValues::Boolean(values),
            transform_flags: TransformFlags::default(),
        }],
    };

    animate_visibility(
        &AnimData {
            major_version: 2,
            minor_version: 0,
            groups: vec![GroupData {
                group_type: GroupType::Visibility,
                nodes: vec![
                    visibility_node("A", vec![true, false, true]),
                    visibility_node("B", vec![false, true, false]),
                ],
            }],
        },
        &frame_position(1.0),
        &mut meshes,
    );

    assert_eq!(false, meshes[0].1);
    assert_eq!(true, meshes[1].1);
    // The third mesh should be unchanged.
    assert_eq!(true, meshes[2].1);
}

#[test]
fn evaluation_order_empty() {
    assert!(evaluation_order(&mut Vec::new()).is_empty());
}

#[test]
fn evaluation_order_single_bone() {
    assert_eq!(
        vec![0],
        evaluation_order(&mut vec![anim_bone(&identity_bone("a", None))])
    );
}

#[test]
fn evaluation_order_multiple_bones() {
    assert_eq!(
        vec![2, 0, 1],
        evaluation_order(&mut vec![
            anim_bone(&identity_bone("child", Some(2))),
            anim_bone(&identity_bone("grandchild", Some(0))),
            anim_bone(&identity_bone("root", None)),
        ])
    );
}

#[test]
fn evaluation_order_cycles() {
    assert_eq!(
        Vec::<usize>::new(),
        evaluation_order(&mut vec![
            anim_bone(&identity_bone("a", Some(1))),
            anim_bone(&identity_bone("b", Some(0))),
        ])
    );
}
