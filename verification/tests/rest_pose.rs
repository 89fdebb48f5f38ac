use glam::{Mat4, Quat, Vec3};
use ssbh_pose::pose::AnimationTransforms;
use ssbh_pose::skeleton::{BillboardType, BoneData, SkelData, MAX_BONE_COUNT};

fn bone(name: &str, transform: Mat4, parent_index: Option<usize>) -> BoneData {
    BoneData {
        name: name.to_string(),
        transform,
        parent_index,
        billboard_type: BillboardType::XAxisViewPointAligned,
    }
}

fn skel(bones: Vec<BoneData>) -> SkelData {
    SkelData {
        major_version: 1,
        minor_version: 0,
        bones,
    }
}

fn a() -> Mat4 {
    Mat4::from_scale_rotation_translation(
        Vec3::new(1.0, 2.0, 3.0),
        Quat::from_rotation_x(0.5),
        Vec3::new(1.0, 2.0, 3.0),
    )
}

fn b() -> Mat4 {
    Mat4::from_rotation_translation(Quat::from_rotation_z(1.0), Vec3::new(0.0, 4.0, 0.0))
}

fn c() -> Mat4 {
    Mat4::from_translation(Vec3::new(5.0, 0.0, 0.0))
}

fn assert_matrix_close(a: Mat4, b: Mat4) {
    assert!(a.abs_diff_eq(b, 0.0001), "\nleft = {:?}\nright = {:?}", a, b);
}

#[test]
fn a_skeleton_without_bones_rests_in_the_identity() {
    let transforms = AnimationTransforms::from_skel(&skel(Vec::new()));
    for i in 0..MAX_BONE_COUNT {
        assert_eq!(transforms.world_transforms[i], Mat4::IDENTITY);
    }
}

#[test]
fn the_world_transform_at_rest_runs_down_the_chain_of_parents() {
    let transforms = AnimationTransforms::from_skel(&skel(vec![
        bone("C", c(), Some(2)),
        bone("A", a(), None),
        bone("B", b(), Some(1)),
    ]));
    assert_eq!(transforms.world_transforms[1], a());
    assert_matrix_close(transforms.world_transforms[2], a() * b());
    assert_matrix_close(transforms.world_transforms[0], a() * b() * c());
    assert_eq!(transforms.world_transforms[3], Mat4::IDENTITY);
}

#[test]
fn a_skeleton_at_rest_is_not_skinned() {
    let transforms = AnimationTransforms::from_skel(&skel(vec![
        bone("A", a(), None),
        bone("B", b(), Some(0)),
    ]));
    for i in 0..MAX_BONE_COUNT {
        assert_eq!(
            transforms.animated_world_transforms.transforms[i],
            Mat4::IDENTITY
        );
        assert_eq!(
            transforms.animated_world_transforms.transforms_inv_transpose[i],
            Mat4::IDENTITY
        );
    }
}

#[test]
fn a_bone_on_a_cycle_rests_in_the_identity() {
    let transforms = AnimationTransforms::from_skel(&skel(vec![
        bone("A", a(), Some(1)),
        bone("B", b(), Some(0)),
        bone("self", c(), Some(2)),
        bone("below", c(), Some(0)),
        bone("root", c(), None),
    ]));
    assert_eq!(transforms.world_transforms[0], Mat4::IDENTITY);
    assert_eq!(transforms.world_transforms[1], Mat4::IDENTITY);
    assert_eq!(transforms.world_transforms[2], Mat4::IDENTITY);
    assert_eq!(transforms.world_transforms[3], Mat4::IDENTITY);
    assert_eq!(transforms.world_transforms[4], c());
}

#[test]
fn a_parent_outside_the_skeleton_ends_the_chain_at_rest() {
    let transforms = AnimationTransforms::from_skel(&skel(vec![
        bone("A", a(), Some(9)),
        bone("B", b(), Some(0)),
    ]));
    assert_eq!(transforms.world_transforms[0], a());
    assert_matrix_close(transforms.world_transforms[1], a() * b());
}

#[test]
fn bones_past_the_room_have_no_slot() {
    let mut bones = vec![bone("A", Mat4::IDENTITY, None); 511];
    bones.push(bone("last", b(), Some(512)));
    bones.push(bone("late", a(), None));
    let transforms = AnimationTransforms::from_skel(&skel(bones));
    // The parent of the last bone with a slot stands past the room and still counts.
    assert_matrix_close(transforms.world_transforms[511], a() * b());
    assert_eq!(transforms.world_transforms[510], Mat4::IDENTITY);
}
