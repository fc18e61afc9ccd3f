use std::collections::HashMap;

use skinning::matrix::Mat4;
use skinning::scene::{get_node_ancestry_list, DrawableMesh, MeshInstance, Node, Scene, Skin};
use skinning::skinning::{get_all_bone_data, get_bone_model_space_transforms, SkinningError};

fn to_mat(m: glam::Mat4) -> Mat4 {
    Mat4 { cols: m.to_cols_array().map(f32::to_bits) }
}

fn to_glam(m: &Mat4) -> glam::Mat4 {
    glam::Mat4::from_cols_array(&m.cols.map(f32::from_bits))
}

fn node(m: glam::Mat4, skin_index: Option<usize>) -> Node {
    Node { transform: to_mat(m), skin_index, mesh_index: None }
}

fn translation(x: f32, y: f32, z: f32) -> glam::Mat4 {
    glam::Mat4::from_translation(glam::Vec3::new(x, y, z))
}

fn assert_close(actual: &Mat4, expected: glam::Mat4) {
    let a = to_glam(actual);
    assert!(a.abs_diff_eq(expected, 1e-5), "{:?} != {:?}", a, expected);
}

fn parents(pairs: &[(usize, usize)]) -> HashMap<usize, usize> {
    pairs.iter().copied().collect()
}

fn mesh_at(nodes: &[usize]) -> DrawableMesh {
    DrawableMesh { instances: nodes.iter().map(|&n| MeshInstance { node_index: n }).collect() }
}

fn identity_le_bytes() -> Vec<u8> {
    let mut out = Vec::new();
    for _ in 0..4 {
        for v in glam::Mat4::IDENTITY.to_cols_array() {
            out.extend_from_slice(&v.to_bits().to_le_bytes());
        }
    }
    out
}

/// Node 0 roots skin 0, whose bones are nodes 1 and 2 (2 a child of 1).
fn two_bone_scene(root: glam::Mat4, b1: glam::Mat4, b2: glam::Mat4, ibm: [glam::Mat4; 2]) -> Scene {
    Scene {
        nodes: vec![node(root, Some(0)), node(b1, None), node(b2, None)],
        parent_index_map: parents(&[(1, 0), (2, 1)]),
        skins: vec![Skin {
            bone_node_indices: vec![1, 2],
            bone_inverse_bind_matrices: vec![to_mat(ibm[0]), to_mat(ibm[1])],
        }],
        drawable_meshes: vec![],
    }
}

#[test]
fn two_identity_bones_resolve_to_identity() {
    let i = glam::Mat4::IDENTITY;
    let scene = Scene {
        nodes: vec![node(i, Some(0)), node(i, None)],
        parent_index_map: parents(&[(1, 0)]),
        skins: vec![Skin {
            bone_node_indices: vec![0, 1],
            bone_inverse_bind_matrices: vec![to_mat(i), to_mat(i)],
        }],
        drawable_meshes: vec![],
    };
    let r = get_bone_model_space_transforms(&scene, 0).unwrap();
    assert_eq!(r.len(), 2);
    assert_eq!(to_glam(&r[0]), i);
    assert_eq!(to_glam(&r[1]), i);
}

#[test]
fn translated_root_bone_cancels_against_root_inverse() {
    let t = translation(0.0, 5.0, 0.0);
    let scene = Scene {
        nodes: vec![node(t, Some(0))],
        parent_index_map: HashMap::new(),
        skins: vec![Skin {
            bone_node_indices: vec![0],
            bone_inverse_bind_matrices: vec![to_mat(glam::Mat4::IDENTITY)],
        }],
        drawable_meshes: vec![],
    };
    let r = get_bone_model_space_transforms(&scene, 0).unwrap();
    assert_eq!(r.len(), 1);
    // world_to_model * bone_to_world * inverse_bind = T(0,-5,0) * T(0,5,0) * I
    let manual = t.inverse() * t * glam::Mat4::IDENTITY;
    assert_close(&r[0], manual);
    assert_close(&r[0], glam::Mat4::IDENTITY);
}

#[test]
fn translated_child_bone_keeps_its_translation() {
    let i = glam::Mat4::IDENTITY;
    let scene = two_bone_scene(i, translation(0.0, 5.0, 0.0), i, [i, i]);
    let r = get_bone_model_space_transforms(&scene, 0).unwrap();
    assert_close(&r[0], translation(0.0, 5.0, 0.0));
    assert_close(&r[1], translation(0.0, 5.0, 0.0));
}

#[test]
fn composition_goes_parent_to_child() {
    let rot = glam::Mat4::from_rotation_z(std::f32::consts::FRAC_PI_2);
    let root = translation(10.0, 0.0, 0.0);
    let t = translation(1.0, 0.0, 0.0);
    let ibm = [translation(0.0, 0.0, 3.0), glam::Mat4::from_scale(glam::Vec3::splat(2.0))];
    let scene = two_bone_scene(root, rot, t, ibm);
    let r = get_bone_model_space_transforms(&scene, 0).unwrap();
    let w = root.inverse();
    assert_close(&r[0], w * (root * rot) * ibm[0]);
    assert_close(&r[1], w * (root * rot * t) * ibm[1]);
    // the child ends one unit along y: rotation applied after the child's offset
    let p = to_glam(&r[1]).transform_point3(glam::Vec3::ZERO);
    assert!(p.abs_diff_eq(glam::Vec3::new(0.0, 1.0, 0.0), 1e-5));
}

#[test]
fn bind_pose_resolves_to_identity() {
    let root = translation(3.0, 0.0, 0.0);
    let b1 = translation(1.0, 0.0, 0.0);
    let b2 = translation(0.0, 2.0, 0.0);
    // inverse bind = inverse of each bone's rest transform in model space
    let ibm = [b1.inverse(), (b1 * b2).inverse()];
    let scene = two_bone_scene(root, b1, b2, ibm);
    let r = get_bone_model_space_transforms(&scene, 0).unwrap();
    assert_close(&r[0], glam::Mat4::IDENTITY);
    assert_close(&r[1], glam::Mat4::IDENTITY);
}

#[test]
fn bones_come_back_in_skin_order() {
    let i = glam::Mat4::IDENTITY;
    let mut scene = two_bone_scene(i, translation(1.0, 0.0, 0.0), translation(0.0, 1.0, 0.0), [i, i]);
    scene.skins[0].bone_node_indices = vec![2, 1];
    let r = get_bone_model_space_transforms(&scene, 0).unwrap();
    assert_close(&r[0], translation(1.0, 1.0, 0.0));
    assert_close(&r[1], translation(1.0, 0.0, 0.0));
}

#[test]
fn empty_skin_gives_no_transforms() {
    let scene = Scene {
        nodes: vec![node(glam::Mat4::IDENTITY, Some(0))],
        parent_index_map: HashMap::new(),
        skins: vec![Skin { bone_node_indices: vec![], bone_inverse_bind_matrices: vec![] }],
        drawable_meshes: vec![],
    };
    assert_eq!(get_bone_model_space_transforms(&scene, 0).unwrap().len(), 0);
}

#[test]
fn singular_root_is_an_error() {
    let i = glam::Mat4::IDENTITY;
    let mut scene = two_bone_scene(glam::Mat4::ZERO, i, i, [i, i]);
    assert_eq!(
        get_bone_model_space_transforms(&scene, 0).unwrap_err(),
        SkinningError::SingularRootTransform
    );
    scene.drawable_meshes = vec![mesh_at(&[2])];
    assert_eq!(get_all_bone_data(&scene, 256).unwrap_err(), SkinningError::SingularRootTransform);
}

#[test]
fn ancestry_list_is_closest_first() {
    let map = parents(&[(3, 2), (2, 0), (1, 0)]);
    assert_eq!(get_node_ancestry_list(3, &map), vec![3, 2, 0]);
    assert_eq!(get_node_ancestry_list(0, &map), vec![0]);
    assert_eq!(get_node_ancestry_list(7, &map), vec![7]);
}

#[test]
fn model_root_is_closest_skinned_ancestor() {
    let i = glam::Mat4::IDENTITY;
    let scene = two_bone_scene(i, i, i, [i, i]);
    assert_eq!(scene.get_model_root_if_in_skeleton(2), Some(0));
    assert_eq!(scene.get_model_root_if_in_skeleton(0), Some(0));
    let lone = Scene {
        nodes: vec![node(i, None)],
        parent_index_map: HashMap::new(),
        skins: vec![],
        drawable_meshes: vec![mesh_at(&[0])],
    };
    assert_eq!(lone.get_model_root_if_in_skeleton(0), None);
    assert_eq!(lone.get_mesh_model_root(0), None);
}

#[test]
fn empty_scene_holds_only_identity_region() {
    let scene = Scene {
        nodes: vec![],
        parent_index_map: HashMap::new(),
        skins: vec![],
        drawable_meshes: vec![],
    };
    let all = get_all_bone_data(&scene, 256).unwrap();
    assert_eq!(all.identity_slice, (0, 256));
    assert_eq!(all.buffer.len(), 4 * 64);
    assert_eq!(all.buffer, identity_le_bytes());
    assert_eq!(&all.buffer[0..4], &[0x00, 0x00, 0x80, 0x3f]);
    assert!(all.animated_bone_transforms.is_empty());
}

/// Nodes 0 and 3 root skins 0 and 1; node 1 is skin 0's bone, nodes 4 and 5
/// skin 1's; node 2 is a plain node outside any skeleton.
fn two_skin_scene(meshes: Vec<DrawableMesh>) -> Scene {
    let i = glam::Mat4::IDENTITY;
    Scene {
        nodes: vec![
            node(i, Some(0)),
            node(translation(0.0, 1.0, 0.0), None),
            node(i, None),
            node(translation(2.0, 0.0, 0.0), Some(1)),
            node(translation(0.0, 0.0, 1.0), None),
            node(i, None),
        ],
        parent_index_map: parents(&[(1, 0), (4, 3), (5, 4)]),
        skins: vec![
            Skin { bone_node_indices: vec![1], bone_inverse_bind_matrices: vec![to_mat(i)] },
            Skin {
                bone_node_indices: vec![4, 5],
                bone_inverse_bind_matrices: vec![to_mat(i), to_mat(i)],
            },
        ],
        drawable_meshes: meshes,
    }
}

#[test]
fn shared_skin_is_written_once() {
    let scene = two_skin_scene(vec![mesh_at(&[1]), mesh_at(&[0])]);
    let all = get_all_bone_data(&scene, 16).unwrap();
    let s = &all.animated_bone_transforms;
    assert_eq!(s.len(), 2);
    assert_eq!(s[0].drawable_mesh_index, 0);
    assert_eq!(s[1].drawable_mesh_index, 1);
    assert_eq!((s[0].start_index, s[0].end_index), (256, 320));
    assert_eq!((s[1].start_index, s[1].end_index), (256, 320));
    assert_eq!(all.buffer.len(), 256 + 64);
}

#[test]
fn skins_start_at_aligned_offsets() {
    let scene = two_skin_scene(vec![mesh_at(&[1]), mesh_at(&[5])]);
    let all = get_all_bone_data(&scene, 256).unwrap();
    let s = &all.animated_bone_transforms;
    assert_eq!((s[0].start_index, s[0].end_index), (256, 320));
    assert_eq!((s[1].start_index, s[1].end_index), (512, 640));
    assert_eq!(s[1].start_index % 256, 0);
    assert!(all.buffer[320..512].iter().all(|&b| b == 0));
    // identity region, one bone and padding to 512, two bones and padding to 768
    assert_eq!(all.buffer.len(), 256 + (64 + 192) + (128 + 128));
    assert_eq!(all.buffer.len() % 256, 0);
}

#[test]
fn buffer_size_counts_each_skin_once() {
    let scene = two_skin_scene(vec![mesh_at(&[5]), mesh_at(&[1]), mesh_at(&[4]), mesh_at(&[2])]);
    let all = get_all_bone_data(&scene, 80).unwrap();
    let s = &all.animated_bone_transforms;
    assert_eq!(s.len(), 3);
    // skin 1: 256..384, padded to 400; skin 0: 400..464, padded to 480
    assert_eq!((s[0].start_index, s[0].end_index), (256, 384));
    assert_eq!((s[1].start_index, s[1].end_index), (400, 464));
    assert_eq!((s[2].start_index, s[2].end_index), (256, 384));
    assert_eq!(all.buffer.len(), 256 + (128 + 16) + (64 + 16));
}

#[test]
fn packed_bytes_are_the_resolved_matrices() {
    let scene = two_skin_scene(vec![mesh_at(&[2, 4])]);
    let all = get_all_bone_data(&scene, 64).unwrap();
    let s = &all.animated_bone_transforms;
    assert_eq!(s.len(), 1);
    let bones = get_bone_model_space_transforms(&scene, 3).unwrap();
    let mut expected = Vec::new();
    for m in &bones {
        for w in m.cols {
            expected.extend_from_slice(&w.to_le_bytes());
        }
    }
    assert_eq!(&all.buffer[s[0].start_index..s[0].end_index], &expected[..]);
    assert_close(&bones[0], translation(0.0, 0.0, 1.0));
}

#[test]
fn unskinned_meshes_are_skipped() {
    let scene = two_skin_scene(vec![mesh_at(&[2]), mesh_at(&[]), mesh_at(&[1])]);
    let all = get_all_bone_data(&scene, 16).unwrap();
    assert_eq!(all.animated_bone_transforms.len(), 1);
    assert_eq!(all.animated_bone_transforms[0].drawable_mesh_index, 2);
}

#[test]
fn packing_twice_gives_the_same_bytes() {
    let scene = two_skin_scene(vec![mesh_at(&[1]), mesh_at(&[4]), mesh_at(&[0])]);
    let a = get_all_bone_data(&scene, 256).unwrap();
    let b = get_all_bone_data(&scene, 256).unwrap();
    assert_eq!(a.buffer, b.buffer);
    assert_eq!(a.animated_bone_transforms, b.animated_bone_transforms);
    assert_eq!(a.identity_slice, b.identity_slice);
}

#[test]
fn chain_stops_at_first_ancestor_outside_the_bones() {
    let i = glam::Mat4::IDENTITY;
    let root = translation(100.0, 0.0, 0.0);
    let holder = translation(0.0, 3.0, 0.0);
    let bone = translation(0.0, 0.0, 4.0);
    // node 0 roots the skin; node 1 holds the bone but is no bone itself
    let scene = Scene {
        nodes: vec![node(root, Some(0)), node(holder, None), node(bone, None)],
        parent_index_map: parents(&[(1, 0), (2, 1)]),
        skins: vec![Skin { bone_node_indices: vec![2], bone_inverse_bind_matrices: vec![to_mat(i)] }],
        drawable_meshes: vec![],
    };
    let r = get_bone_model_space_transforms(&scene, 0).unwrap();
    assert_close(&r[0], root.inverse() * holder * bone);
    assert_close(&r[0], translation(-100.0, 3.0, 4.0));
}

#[test]
fn alignment_of_one_adds_no_padding() {
    let scene = two_skin_scene(vec![mesh_at(&[1]), mesh_at(&[4])]);
    let all = get_all_bone_data(&scene, 1).unwrap();
    let s = &all.animated_bone_transforms;
    assert_eq!((s[0].start_index, s[0].end_index), (256, 320));
    assert_eq!((s[1].start_index, s[1].end_index), (320, 448));
    assert_eq!(all.buffer.len(), 448);
}

#[test]
fn canonicalize_rewrites_every_nan_only() {
    let mut cols = [0u32; 16];
    cols[0] = 0xffc0_0001; // negative NaN with a payload
    cols[1] = 0x7f80_0001; // signalling NaN
    cols[2] = 0x7f80_0000; // +inf stays
    cols[3] = 0xff80_0000; // -inf stays
    cols[4] = 1.5f32.to_bits();
    let c = Mat4 { cols }.canonicalize();
    assert_eq!(c.cols[0], 0x7fc0_0000);
    assert_eq!(c.cols[1], 0x7fc0_0000);
    assert_eq!(c.cols[2], 0x7f80_0000);
    assert_eq!(c.cols[3], 0xff80_0000);
    assert_eq!(c.cols[4], 1.5f32.to_bits());
    assert_eq!(c.cols[5], 0);
}

#[test]
fn nan_bone_entries_come_out_canonical() {
    let mut bad = glam::Mat4::IDENTITY;
    bad.x_axis.x = f32::INFINITY;
    let scene = Scene {
        nodes: vec![node(glam::Mat4::IDENTITY, Some(0)), node(bad, None)],
        parent_index_map: parents(&[(1, 0)]),
        skins: vec![Skin {
            bone_node_indices: vec![1],
            bone_inverse_bind_matrices: vec![to_mat(glam::Mat4::ZERO)],
        }],
        drawable_meshes: vec![],
    };
    let r = get_bone_model_space_transforms(&scene, 0).unwrap();
    // inf * 0 is a NaN, whatever sign the hardware gives it
    assert_eq!(r[0].cols[0], 0x7fc0_0000);
    let again = get_bone_model_space_transforms(&scene, 0).unwrap();
    assert_eq!(r, again);
}

#[test]
fn alignment_above_identity_region_still_aligns_later_skins() {
    let scene = two_skin_scene(vec![mesh_at(&[1]), mesh_at(&[4])]);
    let all = get_all_bone_data(&scene, 512).unwrap();
    let s = &all.animated_bone_transforms;
    assert_eq!((s[0].start_index, s[0].end_index), (256, 320));
    assert_eq!((s[1].start_index, s[1].end_index), (512, 640));
    assert_eq!(all.buffer.len(), 1024);
}
