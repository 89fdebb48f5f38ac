use glam::Mat4;
use ssbh_pose::bone_index::{bone_position, find_parent_index, parent_index, per_bone, PerBone};
use ssbh_pose::skeleton::{BillboardType, BoneData, SkelData};

fn bone(parent_index: Option<usize>) -> BoneData {
    BoneData {
        name: "bone".to_string(),
        transform: Mat4::IDENTITY,
        parent_index,
        billboard_type: BillboardType::Disabled,
    }
}

#[test]
fn no_parent_is_minus_one() {
    assert_eq!(parent_index(None), -1);
}

#[test]
fn a_parent_keeps_its_index() {
    assert_eq!(parent_index(Some(0)), 0);
    assert_eq!(parent_index(Some(511)), 511);
    assert_eq!(parent_index(Some(i32::MAX as usize)), i32::MAX);
}

#[test]
fn a_large_index_is_cut_to_32_bits() {
    assert_eq!(parent_index(Some(i32::MAX as usize + 1)), i32::MIN);
    assert_eq!(parent_index(Some(u32::MAX as usize)), -1);
}

#[test]
fn per_bone_holds_the_bone_and_its_parent() {
    assert_eq!(
        per_bone(3, &bone(Some(1))),
        PerBone {
            index: [3, 1, -1, -1]
        }
    );
    assert_eq!(
        per_bone(0, &bone(None)),
        PerBone {
            index: [0, -1, -1, -1]
        }
    );
}

fn skel(names: &[&str]) -> SkelData {
    SkelData {
        major_version: 1,
        minor_version: 0,
        bones: names
            .iter()
            .map(|name| BoneData {
                name: name.to_string(),
                ..bone(None)
            })
            .collect(),
    }
}

#[test]
fn the_first_bone_of_a_name_is_found() {
    let skel = skel(&["Trans", "Hip", "Head", "Hip"]);
    assert_eq!(bone_position(&skel, &"Trans".to_string()), Some(0));
    assert_eq!(bone_position(&skel, &"Hip".to_string()), Some(1));
    assert_eq!(bone_position(&skel, &"Head".to_string()), Some(2));
    assert_eq!(bone_position(&skel, &"head".to_string()), None);
}

#[test]
fn a_mesh_hangs_on_the_bone_of_its_parent_name() {
    let skel = skel(&["Trans", "Hip", "Head", "Hip"]);
    assert_eq!(find_parent_index(false, &"Head".to_string(), Some(&skel)), 2);
    assert_eq!(find_parent_index(false, &"Hip".to_string(), Some(&skel)), 1);
}

#[test]
fn a_mesh_without_a_parent_bone_hangs_on_none() {
    let skel = skel(&["Trans", "Hip"]);
    assert_eq!(find_parent_index(false, &"Head".to_string(), Some(&skel)), -1);
    assert_eq!(find_parent_index(false, &"".to_string(), Some(&skel)), -1);
    assert_eq!(find_parent_index(false, &"Hip".to_string(), None), -1);
}

#[test]
fn a_mesh_with_bone_influences_hangs_on_none() {
    let skel = skel(&["Trans", "Hip"]);
    assert_eq!(find_parent_index(true, &"Hip".to_string(), Some(&skel)), -1);
    assert_eq!(find_parent_index(true, &"Hip".to_string(), None), -1);
}
