//! Bone transforms of skinned models, and their packing into one buffer for
//! the GPU.
use std::collections::HashMap;

use vstd::arithmetic::div_mod::{lemma_fundamental_div_mod, lemma_mod_multiples_basic};
use vstd::prelude::*;
use vstd::std_specs::hash::*;

use crate::matrix::{
    identity_matrix, inverse_of, lemma_matrices_bytes_len, matrices_bytes, multiply, product_of,
    try_inverse, write_matrices, Mat4, MATRIX_SIZE_BYTES,
};
use crate::scene::{ancestry, ancestry_list, get_node_ancestry_list, Scene, Skin};

verus! {

broadcast use {axiom_usize_obeys_hash_table_key_model, axiom_random_state_builds_valid_hashers};

/// Why bone data could not be computed.
#[derive(Clone, Copy, PartialEq, Eq, Structural, Debug)]
pub enum SkinningError {
    /// The model root's transform has no finite inverse.
    SingularRootTransform,
}

/// The parent lookup of a skeleton: each bone of `skin` that has a parent,
/// mapped to that parent.
pub open spec fn skeleton_parent_map(scene: Scene, skin: Skin) -> Map<usize, usize> {
    Map::new(
        |k: usize| skin.bone_node_indices@.contains(k) && scene.parent_index_map@.contains_key(k),
        |k: usize| scene.parent_index_map@[k],
    )
}

/// The product of the local transforms along `chain` (closest first), folded
/// from the furthest node down to the first, starting from the identity.
pub open spec fn compose_chain(scene: Scene, chain: Seq<usize>) -> Mat4
    decreases chain.len(),
{
    if chain.len() == 0 {
        identity_matrix()
    } else {
        product_of(
            compose_chain(scene, chain.drop_first()),
            scene.nodes@[chain[0] as int].transform,
        )
    }
}

/// The skin that the model root `root` roots.
pub open spec fn root_skin(scene: Scene, root: usize) -> Skin {
    scene.skins@[scene.nodes@[root as int].skin_index->Some_0 as int]
}

/// The model-space transform of bone `b` of the skin rooted at `root`, where
/// `world_to_model` is the inverse of the root's transform:
/// `world_to_model * bone_to_world * inverse_bind[b]`.
pub open spec fn bone_model_space(scene: Scene, root: usize, world_to_model: Mat4, b: int) -> Mat4 {
    let skin = root_skin(scene, root);
    let chain = ancestry_list(skeleton_parent_map(scene, skin), skin.bone_node_indices@[b]);
    product_of(
        product_of(world_to_model, compose_chain(scene, chain)),
        skin.bone_inverse_bind_matrices@[b],
    )
}

/// The model-space transforms of all bones of the skin rooted at `root`, in
/// the skin's bone order; `None` when the root's transform is singular.
pub open spec fn bone_model_space_transforms(scene: Scene, root: usize) -> Option<Seq<Mat4>> {
    match inverse_of(scene.nodes@[root as int].transform) {
        Some(world_to_model) => Some(
            Seq::new(
                root_skin(scene, root).bone_node_indices@.len(),
                |b: int| bone_model_space(scene, root, world_to_model, b),
            ),
        ),
        None => None,
    }
}

/// Folds the local transforms of `chain` from its last node down to its
/// first.
fn compose_ancestry(scene: &Scene, chain: &Vec<usize>) -> (r: Mat4)
    requires
        forall|i: int| 0 <= i < chain@.len() ==> #[trigger] chain@[i] < scene.nodes@.len(),
    ensures
        r == compose_chain(*scene, chain@),
{
    let mut acc = Mat4::identity();
    let mut i = chain.len();
    assert(chain@.subrange(i as int, chain@.len() as int) =~= Seq::<usize>::empty());
    while i > 0
        invariant
            i <= chain@.len(),
            forall|j: int| 0 <= j < chain@.len() ==> #[trigger] chain@[j] < scene.nodes@.len(),
            acc == compose_chain(*scene, chain@.subrange(i as int, chain@.len() as int)),
        decreases i,
    {
        let node = chain[i - 1];
        acc = multiply(&acc, &scene.nodes[node].transform);
        proof {
            let s = chain@.subrange(i - 1, chain@.len() as int);
            assert(s.drop_first() =~= chain@.subrange(i as int, chain@.len() as int));
            assert(s[0] == node);
        }
        i = i - 1;
    }
    assert(chain@.subrange(0, chain@.len() as int) =~= chain@);
    acc
}

/// Builds the skeleton's parent lookup: each bone that has a parent in the
/// scene, mapped to it.
fn skeleton_parent_index_map(scene: &Scene, skin: &Skin) -> (r: HashMap<usize, usize>)
    ensures
        r@ == skeleton_parent_map(*scene, *skin),
{
    let bones = &skin.bone_node_indices;
    let mut map: HashMap<usize, usize> = HashMap::new();
    let mut i: usize = 0;
    while i < bones.len()
        invariant
            i <= bones@.len(),
            *bones == skin.bone_node_indices,
            map@ == Map::new(
                |k: usize|
                    bones@.take(i as int).contains(k) && scene.parent_index_map@.contains_key(k),
                |k: usize| scene.parent_index_map@[k],
            ),
        decreases bones.len() - i,
    {
        let bone = bones[i];
        match scene.parent_index_map.get(&bone) {
            Some(parent) => {
                map.insert(bone, *parent);
            },
            None => {},
        }
        proof {
            let next = bones@.take(i + 1);
            assert(next =~= bones@.take(i as int).push(bone));
            assert forall|k: usize| next.contains(k) <==> (bones@.take(i as int).contains(k) || k
                == bone) by {
                if next.contains(k) {
                    let j = choose|j: int| 0 <= j < next.len() && next[j] == k;
                    if j < i {
                        assert(bones@.take(i as int)[j] == k);
                    }
                }
                if bones@.take(i as int).contains(k) {
                    let j = choose|j: int| 0 <= j < i && bones@.take(i as int)[j] == k;
                    assert(next[j] == k);
                }
                if k == bone {
                    assert(next[i as int] == k);
                }
            }
            assert(map@ =~= Map::new(
                |k: usize| next.contains(k) && scene.parent_index_map@.contains_key(k),
                |k: usize| scene.parent_index_map@[k],
            ));
        }
        i = i + 1;
    }
    assert(bones@.take(bones@.len() as int) =~= bones@);
    map
}

/// The model-space transform of every bone of the skin rooted at
/// `model_root_node_index`, in the skin's bone order. A bone's chain is the
/// bone, then its parent, going on upwards while the node reached is itself
/// a bone with a parent. Its transform is the inverse of the root's
/// transform, times the local transforms of its chain multiplied from the
/// top down to the bone, times the bone's inverse-bind matrix. Fails when
/// the root's transform has no finite inverse.
pub fn get_bone_model_space_transforms(scene: &Scene, model_root_node_index: usize) -> (r: Result<
    Vec<Mat4>,
    SkinningError,
>)
    requires
        scene.wf(),
        model_root_node_index < scene.nodes@.len(),
        scene.nodes@[model_root_node_index as int].skin_index is Some,
    ensures
        match r {
            Ok(transforms) => {
                &&& bone_model_space_transforms(*scene, model_root_node_index) == Some(
                    transforms@,
                )
                &&& transforms@.len() == root_skin(
                    *scene,
                    model_root_node_index,
                ).bone_node_indices@.len()
            },
            Err(e) => {
                &&& bone_model_space_transforms(*scene, model_root_node_index) is None
                &&& e == SkinningError::SingularRootTransform
            },
        },
{
    let root = &scene.nodes[model_root_node_index];
    let skin_index = root.skin_index.unwrap();
    assert(scene.skins@[skin_index as int].wf(scene.nodes@.len()));
    let skin = &scene.skins[skin_index];
    let skeleton_map = skeleton_parent_index_map(scene, skin);
    let world_space_to_model_space = match try_inverse(&root.transform) {
        Some(m) => m,
        None => {
            return Err(SkinningError::SingularRootTransform);
        },
    };
    let ghost pm = skeleton_parent_map(*scene, *skin);
    let mut transforms: Vec<Mat4> = Vec::new();
    let mut b: usize = 0;
    while b < skin.bone_node_indices.len()
        invariant
            scene.wf(),
            *skin == root_skin(*scene, model_root_node_index),
            skin.wf(scene.nodes@.len()),
            skeleton_map@ == pm,
            pm == skeleton_parent_map(*scene, *skin),
            Some(world_space_to_model_space) == inverse_of(
                scene.nodes@[model_root_node_index as int].transform,
            ),
            b <= skin.bone_node_indices@.len(),
            transforms@.len() == b,
            forall|j: int|
                0 <= j < b ==> #[trigger] transforms@[j] == bone_model_space(
                    *scene,
                    model_root_node_index,
                    world_space_to_model_space,
                    j,
                ),
        decreases skin.bone_node_indices.len() - b,
    {
        let bone_node_index = skin.bone_node_indices[b];
        let chain = get_node_ancestry_list(bone_node_index, &skeleton_map);
        proof {
            lemma_ancestry_in_scene(*scene, pm, bone_node_index, pm.len());
        }
        let bone_space_to_world_space = compose_ancestry(scene, &chain);
        let model_space_to_bone_space = &skin.bone_inverse_bind_matrices[b];
        let partial = multiply(&world_space_to_model_space, &bone_space_to_world_space);
        transforms.push(multiply(&partial, model_space_to_bone_space));
        b = b + 1;
    }
    assert(transforms@ =~= bone_model_space_transforms(*scene, model_root_node_index)->Some_0);
    Ok(transforms)
}

/// Every node on a chain through a map whose values are nodes of the scene
/// is a node of the scene.
proof fn lemma_ancestry_in_scene(scene: Scene, m: Map<usize, usize>, n: usize, fuel: nat)
    requires
        n < scene.nodes@.len(),
        forall|k: usize| #[trigger] m.contains_key(k) ==> m[k] < scene.nodes@.len(),
    ensures
        forall|i: int|
            0 <= i < ancestry(m, n, fuel).len() ==> #[trigger] ancestry(m, n, fuel)[i]
                < scene.nodes@.len(),
    decreases fuel,
{
    if fuel > 0 && m.contains_key(n) {
        lemma_ancestry_in_scene(scene, m, m[n], (fuel - 1) as nat);
        assert forall|i: int| 0 <= i < ancestry(m, n, fuel).len() implies #[trigger] ancestry(
            m,
            n,
            fuel,
        )[i] < scene.nodes@.len() by {
            if i > 0 {
                assert(ancestry(m, n, fuel)[i] == ancestry(m, m[n], (fuel - 1) as nat)[i - 1]);
            }
        }
    }
}

/// How many identity matrices lead the buffer.
pub const IDENTITY_BONE_COUNT: usize = 4;

/// The packed bone data of a scene: one buffer, led by the identity
/// region, and where each animated drawable mesh finds its bones in it.
#[derive(Debug)]
pub struct AllBoneTransforms {
    pub buffer: Vec<u8>,
    pub animated_bone_transforms: Vec<AllBoneTransformsSlice>,
    /// The byte range of the identity region, `(start, end)`.
    pub identity_slice: (usize, usize),
}

/// The byte range `[start_index, end_index)` of the buffer that holds the
/// bone transforms of one drawable mesh.
#[derive(Clone, Copy, PartialEq, Eq, Structural, Debug)]
pub struct AllBoneTransformsSlice {
    pub drawable_mesh_index: usize,
    pub start_index: usize,
    pub end_index: usize,
}

/// The packer's state after some of the drawable meshes: the buffer so far,
/// the slices so far, and the range already written for each skin.
pub struct PackState {
    pub buffer: Seq<u8>,
    pub slices: Seq<AllBoneTransformsSlice>,
    pub placed: Map<usize, (usize, usize)>,
}

/// The identity region: four identity matrices, encoded.
pub open spec fn identity_region() -> Seq<u8> {
    matrices_bytes(Seq::new(IDENTITY_BONE_COUNT as nat, |i: int| identity_matrix()))
}

/// The size in bytes of the identity region.
pub open spec fn identity_region_len() -> nat {
    (IDENTITY_BONE_COUNT * MATRIX_SIZE_BYTES) as nat
}

/// How many zero bytes follow a skin's data ending at `end` so that the
/// next write begins at a multiple of `align`.
pub open spec fn padding_len(end: nat, align: nat) -> nat {
    if end % align == 0 {
        0
    } else {
        (align - end % align) as nat
    }
}

/// The packer's step over drawable mesh `mi`: a mesh outside any skeleton is
/// passed over; a skin written before is pointed at again; a new skin has
/// its transforms written and padded. `None` when they cannot be computed.
pub open spec fn pack_step(scene: Scene, align: nat, st: PackState, mi: int) -> Option<PackState> {
    match scene.mesh_model_root(mi) {
        None => Some(st),
        Some(root) => {
            let s = scene.nodes@[root as int].skin_index->Some_0;
            if st.placed.contains_key(s) {
                Some(
                    PackState {
                        slices: st.slices.push(
                            AllBoneTransformsSlice {
                                drawable_mesh_index: mi as usize,
                                start_index: st.placed[s].0,
                                end_index: st.placed[s].1,
                            },
                        ),
                        ..st
                    },
                )
            } else {
                match bone_model_space_transforms(scene, root) {
                    None => None,
                    Some(ms) => {
                        let bytes = matrices_bytes(ms);
                        let start = st.buffer.len();
                        let end = start + bytes.len();
                        let slice = AllBoneTransformsSlice {
                            drawable_mesh_index: mi as usize,
                            start_index: start as usize,
                            end_index: end as usize,
                        };
                        Some(
                            PackState {
                                buffer: st.buffer + bytes + Seq::new(
                                    padding_len(end, align),
                                    |i: int| 0u8,
                                ),
                                slices: st.slices.push(slice),
                                placed: st.placed.insert(s, (start as usize, end as usize)),
                            },
                        )
                    },
                }
            }
        },
    }
}

/// The packer's state after the first `k` drawable meshes.
pub open spec fn pack_prefix(scene: Scene, align: nat, k: nat) -> Option<PackState>
    decreases k,
{
    if k == 0 {
        Some(PackState { buffer: identity_region(), slices: seq![], placed: map![] })
    } else {
        match pack_prefix(scene, align, (k - 1) as nat) {
            None => None,
            Some(st) => pack_step(scene, align, st, k - 1),
        }
    }
}

/// The packer's state after all drawable meshes.
pub open spec fn pack_all(scene: Scene, align: nat) -> Option<PackState> {
    pack_prefix(scene, align, scene.drawable_meshes@.len())
}

/// `all` is what packing `scene` with alignment `align` gives.
pub open spec fn packing_result(scene: Scene, align: nat, all: AllBoneTransforms) -> bool {
    &&& pack_all(scene, align) matches Some(st)
    &&& st.buffer == all.buffer@
    &&& st.slices == all.animated_bone_transforms@
    &&& all.identity_slice == (0usize, identity_region_len() as usize)
}

/// Once a step fails, packing more meshes fails too.
proof fn lemma_pack_failure_persists(scene: Scene, align: nat, k: nat, n: nat)
    requires
        k <= n,
        pack_prefix(scene, align, k) is None,
    ensures
        pack_prefix(scene, align, n) is None,
    decreases n - k,
{
    if k < n {
        lemma_pack_failure_persists(scene, align, k, (n - 1) as nat);
    }
}

/// Packs the bone transforms of every animated drawable mesh of `scene` into
/// one buffer. The buffer starts with the identity region; then, in the
/// order of the drawable meshes, each skin met for the first time has its
/// bone transforms appended, followed by zero bytes up to the next multiple
/// of `min_storage_buffer_offset_alignment`. A skin met again is not written
/// again: its mesh's slice points at the range written before. Fails when a
/// skin's model root has a singular transform.
pub fn get_all_bone_data(scene: &Scene, min_storage_buffer_offset_alignment: u32) -> (r: Result<
    AllBoneTransforms,
    SkinningError,
>)
    requires
        scene.wf(),
        min_storage_buffer_offset_alignment > 0,
    ensures
        r is Ok <==> pack_all(*scene, min_storage_buffer_offset_alignment as nat) is Some,
        r matches Ok(all) ==> packing_result(
            *scene,
            min_storage_buffer_offset_alignment as nat,
            all,
        ),
        r matches Err(e) ==> e == SkinningError::SingularRootTransform,
{
    let ghost align = min_storage_buffer_offset_alignment as nat;
    let alignment = min_storage_buffer_offset_alignment as usize;
    let identity_slice = (0usize, IDENTITY_BONE_COUNT * MATRIX_SIZE_BYTES);
    let mut identities: Vec<Mat4> = Vec::new();
    let mut i: usize = 0;
    while i < IDENTITY_BONE_COUNT
        invariant
            i <= IDENTITY_BONE_COUNT,
            identities@ =~= Seq::new(i as nat, |j: int| identity_matrix()),
        decreases IDENTITY_BONE_COUNT - i,
    {
        identities.push(Mat4::identity());
        i = i + 1;
    }
    let mut buffer: Vec<u8> = Vec::new();
    write_matrices(&mut buffer, &identities);
    assert(buffer@ =~= identity_region());
    let mut animated_bone_transforms: Vec<AllBoneTransformsSlice> = Vec::new();
    let mut skin_index_to_slice_map: HashMap<usize, (usize, usize)> = HashMap::new();
    assert(skin_index_to_slice_map@ =~= map![]);
    let mut drawable_mesh_index: usize = 0;
    while drawable_mesh_index < scene.drawable_meshes.len()
        invariant
            scene.wf(),
            alignment as nat == align,
            align == min_storage_buffer_offset_alignment as nat,
            align > 0,
            drawable_mesh_index <= scene.drawable_meshes@.len(),
            pack_prefix(*scene, align, drawable_mesh_index as nat) == Some(
                PackState {
                    buffer: buffer@,
                    slices: animated_bone_transforms@,
                    placed: skin_index_to_slice_map@,
                },
            ),
        decreases scene.drawable_meshes.len() - drawable_mesh_index,
    {
        let ghost mi = drawable_mesh_index as int;
        proof {
            scene.lemma_first_root(mi, 0);
        }
        match scene.get_mesh_model_root(drawable_mesh_index) {
            None => {},
            Some(model_root_node_index) => {
                let skin_index = scene.nodes[model_root_node_index].skin_index.unwrap();
                match skin_index_to_slice_map.get(&skin_index) {
                    Some(range) => {
                        let (start_index, end_index) = *range;
                        animated_bone_transforms.push(
                            AllBoneTransformsSlice { drawable_mesh_index, start_index, end_index },
                        );
                    },
                    None => {
                        let bone_transforms = match get_bone_model_space_transforms(
                            scene,
                            model_root_node_index,
                        ) {
                            Ok(t) => t,
                            Err(e) => {
                                proof {
                                    lemma_pack_failure_persists(
                                        *scene,
                                        align,
                                        (mi + 1) as nat,
                                        scene.drawable_meshes@.len(),
                                    );
                                }
                                return Err(e);
                            },
                        };
                        let start_index = buffer.len();
                        write_matrices(&mut buffer, &bone_transforms);
                        let end_index = buffer.len();
                        let remainder = end_index % alignment;
                        let padding = if remainder == 0 {
                            0
                        } else {
                            alignment - remainder
                        };
                        let ghost with_bones = buffer@;
                        let mut p: usize = 0;
                        while p < padding
                            invariant
                                p <= padding,
                                buffer@ =~= with_bones + Seq::new(p as nat, |i: int| 0u8),
                            decreases padding - p,
                        {
                            buffer.push(0u8);
                            p = p + 1;
                        }
                        assert(padding as nat == padding_len(end_index as nat, align));
                        animated_bone_transforms.push(
                            AllBoneTransformsSlice { drawable_mesh_index, start_index, end_index },
                        );
                        skin_index_to_slice_map.insert(skin_index, (start_index, end_index));
                    },
                }
            },
        }
        drawable_mesh_index = drawable_mesh_index + 1;
    }
    Ok(AllBoneTransforms { buffer, animated_bone_transforms, identity_slice })
}

/// Whether drawable mesh `mi` is the first, in mesh order, that its skin
/// animates.
pub open spec fn first_use(scene: Scene, mi: int) -> bool {
    &&& scene.mesh_skin(mi) is Some
    &&& forall|j: int| 0 <= j < mi ==> scene.mesh_skin(j) != scene.mesh_skin(mi)
}

/// The number of bones of the skin that animates drawable mesh `mi`.
pub open spec fn mesh_bone_count(scene: Scene, mi: int) -> nat {
    scene.skins@[scene.mesh_skin(mi)->Some_0 as int].bone_node_indices@.len()
}

/// The bytes that the first `k` drawable meshes add after the identity
/// region: for each skin, once, 64 bytes per bone and the padding after
/// them.
pub open spec fn region_total(scene: Scene, align: nat, k: nat) -> nat
    decreases k,
{
    if k == 0 {
        0
    } else {
        let t = region_total(scene, align, (k - 1) as nat);
        if first_use(scene, k - 1) {
            let data = 64 * mesh_bone_count(scene, k - 1);
            t + data + padding_len(identity_region_len() + t + data, align)
        } else {
            t
        }
    }
}

/// The skin of the first slice: the first skin that packing wrote.
pub open spec fn first_skin(scene: Scene, st: PackState) -> usize {
    scene.mesh_skin(st.slices[0].drawable_mesh_index as int)->Some_0
}

/// What holds of the packer's state after the first `k` drawable meshes.
pub open spec fn pack_inv(scene: Scene, align: nat, k: nat, st: PackState) -> bool {
    &&& st.buffer.len() == identity_region_len() + region_total(scene, align, k)
    &&& st.slices.len() == 0 ==> st.buffer.len() == identity_region_len() && forall|s: usize|
        !(#[trigger] st.placed.contains_key(s))
    &&& st.slices.len() > 0 ==> st.buffer.len() % align == 0
    &&& forall|s: usize|
        #![trigger st.placed.contains_key(s)]
        st.placed.contains_key(s) <==> exists|j: int|
            0 <= j < k && scene.mesh_skin(j) == Some(s)
    &&& st.buffer.len() <= usize::MAX ==> forall|s: usize|
        #![trigger st.placed[s]]
        st.placed.contains_key(s) ==> {
            &&& st.placed[s].0 <= st.placed[s].1
            &&& st.placed[s].1 - st.placed[s].0 == 64 * scene.skins@[s as int].bone_node_indices@.len()
            &&& if s == first_skin(scene, st) {
                st.placed[s].0 == identity_region_len()
            } else {
                st.placed[s].0 as nat % align == 0
            }
        }
    &&& forall|i: int|
        #![trigger st.slices[i]]
        0 <= i < st.slices.len() ==> {
            let sl = st.slices[i];
            &&& scene.mesh_skin(sl.drawable_mesh_index as int) matches Some(s)
            &&& st.placed.contains_key(s)
            &&& st.placed[s] == (sl.start_index, sl.end_index)
        }
}

/// Zero bytes up to the next multiple of `align` end on one.
pub proof fn lemma_padding_aligns(end: nat, align: nat)
    requires
        align > 0,
    ensures
        (end + padding_len(end, align)) % align == 0,
        padding_len(end, align) < align,
{
    if end % align != 0 {
        lemma_fundamental_div_mod(end as int, align as int);
        let q = end as int / align as int;
        assert(end + padding_len(end, align) == (q + 1) * align) by (nonlinear_arith)
            requires
                end == align * q + end % align,
                padding_len(end, align) == align - end % align,
        ;
        lemma_mod_multiples_basic(q + 1, align as int);
    }
}

/// The state after each prefix of the drawable meshes keeps `pack_inv`.
proof fn lemma_pack_inv(scene: Scene, align: nat, k: nat)
    requires
        scene.wf(),
        align > 0,
        k <= scene.drawable_meshes@.len(),
    ensures
        pack_prefix(scene, align, k) matches Some(st) ==> pack_inv(scene, align, k, st),
    decreases k,
{
    if k == 0 {
        lemma_matrices_bytes_len(Seq::new(IDENTITY_BONE_COUNT as nat, |i: int| identity_matrix()));
    } else {
        let mi = k - 1;
        lemma_pack_inv(scene, align, mi as nat);
        if let Some(st) = pack_prefix(scene, align, mi as nat) {
            scene.lemma_first_root(mi, 0);
            match scene.mesh_model_root(mi) {
                None => {
                    assert(scene.mesh_skin(mi) is None);
                    assert forall|s: usize| #[trigger]
                        st.placed.contains_key(s) <==> exists|j: int|
                            0 <= j < k && scene.mesh_skin(j) == Some(s) by {
                        if exists|j: int| 0 <= j < k && scene.mesh_skin(j) == Some(s) {
                            let j = choose|j: int| 0 <= j < k && scene.mesh_skin(j) == Some(s);
                            assert(j < mi);
                        }
                    }
                },
                Some(root) => {
                    let s = scene.nodes@[root as int].skin_index->Some_0;
                    assert(scene.mesh_skin(mi) == Some(s));
                    if st.placed.contains_key(s) {
                        let j0 = choose|j: int| 0 <= j < mi && scene.mesh_skin(j) == Some(s);
                        assert(!first_use(scene, mi));
                        let next = pack_prefix(scene, align, k)->Some_0;
                        assert forall|x: usize| #[trigger]
                            next.placed.contains_key(x) <==> exists|j: int|
                                0 <= j < k && scene.mesh_skin(j) == Some(x) by {
                            if exists|j: int| 0 <= j < k && scene.mesh_skin(j) == Some(x) {
                                let j = choose|j: int| 0 <= j < k && scene.mesh_skin(j) == Some(x);
                                if j == mi {
                                    assert(x == s);
                                    assert(0 <= j0 < mi && scene.mesh_skin(j0) == Some(x));
                                } else {
                                    assert(0 <= j < mi && scene.mesh_skin(j) == Some(x));
                                }
                            }
                            if next.placed.contains_key(x) {
                                let j = choose|j: int| 0 <= j < mi && scene.mesh_skin(j) == Some(x);
                                assert(0 <= j < k && scene.mesh_skin(j) == Some(x));
                            }
                        }
                        assert(next.buffer == st.buffer);
                        assert(next.placed == st.placed);
                        assert(region_total(scene, align, k) == region_total(scene, align, mi as nat));
                        assert forall|i: int| 0 <= i < next.slices.len() implies {
                            let sl = #[trigger] next.slices[i];
                            &&& scene.mesh_skin(sl.drawable_mesh_index as int) matches Some(x)
                            &&& next.placed.contains_key(x)
                            &&& next.placed[x] == (sl.start_index, sl.end_index)
                        } by {
                            if i < st.slices.len() {
                                assert(next.slices[i] == st.slices[i]);
                            } else {
                                assert(next.slices[i].drawable_mesh_index == mi as usize);
                            }
                        }
                        assert(pack_inv(scene, align, k, next));
                    } else {
                        if let Some(ms) = bone_model_space_transforms(scene, root) {
                            assert forall|j: int| 0 <= j < mi implies scene.mesh_skin(j)
                                != scene.mesh_skin(mi) by {
                                if scene.mesh_skin(j) == Some(s) {
                                    assert(st.placed.contains_key(s));
                                }
                            }
                            assert(first_use(scene, mi));
                            lemma_matrices_bytes_len(ms);
                            let start = st.buffer.len();
                            let end = start + matrices_bytes(ms).len();
                            lemma_padding_aligns(end, align);
                            let next = pack_prefix(scene, align, k)->Some_0;
                            assert(next.buffer.len() == end + padding_len(end, align));
                            assert(ms.len() == mesh_bone_count(scene, mi));
                            assert(end == identity_region_len() + region_total(scene, align, mi as nat) + 64 * mesh_bone_count(scene, mi));
                            assert(next.buffer.len() == identity_region_len() + region_total(scene, align, k));
                            assert(next.buffer.len() % align == 0);
                            assert forall|x: usize| #[trigger]
                                next.placed.contains_key(x) <==> exists|j: int|
                                    0 <= j < k && scene.mesh_skin(j) == Some(x) by {
                                if exists|j: int| 0 <= j < k && scene.mesh_skin(j) == Some(x) {
                                    let j = choose|j: int|
                                        0 <= j < k && scene.mesh_skin(j) == Some(x);
                                    if j != mi {
                                        assert(0 <= j < mi && scene.mesh_skin(j) == Some(x));
                                        assert(st.placed.contains_key(x));
                                    }
                                }
                                if next.placed.contains_key(x) {
                                    if x != s {
                                        assert(st.placed.contains_key(x));
                                        let j = choose|j: int|
                                            0 <= j < mi && scene.mesh_skin(j) == Some(x);
                                        assert(0 <= j < k && scene.mesh_skin(j) == Some(x));
                                    } else {
                                        assert(0 <= mi < k && scene.mesh_skin(mi) == Some(x));
                                    }
                                }
                            }
                            assert forall|i: int| 0 <= i < next.slices.len() implies {
                                let sl = #[trigger] next.slices[i];
                                &&& scene.mesh_skin(sl.drawable_mesh_index as int) matches Some(x)
                                &&& next.placed.contains_key(x)
                                &&& next.placed[x] == (sl.start_index, sl.end_index)
                            } by {
                                if i < st.slices.len() {
                                    let sl = st.slices[i];
                                    let x = scene.mesh_skin(sl.drawable_mesh_index as int)->Some_0;
                                    assert(st.placed.contains_key(x));
                                    assert(x != s);
                                }
                            }
                            if st.slices.len() == 0 {
                                assert(next.slices[0].drawable_mesh_index == mi as usize);
                                assert(first_skin(scene, next) == s);
                                assert(start == identity_region_len());
                            } else {
                                assert(next.slices[0] == st.slices[0]);
                                assert(first_skin(scene, next) == first_skin(scene, st));
                                let f = first_skin(scene, st);
                                assert(st.placed.contains_key(f));
                                assert(f != s);
                            }
                            assert(root_skin(scene, root) == scene.skins@[s as int]);
                            if next.buffer.len() <= usize::MAX {
                                assert forall|x: usize| #[trigger]
                                    next.placed.contains_key(x) implies {
                                    &&& next.placed[x].0 <= next.placed[x].1
                                    &&& next.placed[x].1 - next.placed[x].0 == 64
                                        * scene.skins@[x as int].bone_node_indices@.len()
                                    &&& if x == first_skin(scene, next) {
                                        next.placed[x].0 == identity_region_len()
                                    } else {
                                        next.placed[x].0 as nat % align == 0
                                    }
                                } by {
                                    if x == s {
                                        assert(next.placed[x] == (start as usize, end as usize));
                                    } else {
                                        assert(st.placed.contains_key(x));
                                        assert(next.placed[x] == st.placed[x]);
                                    }
                                }
                            }
                            assert(pack_inv(scene, align, k, next));
                        }
                    }
                },
            }
        }
    }
}

/// Packing is a function of the scene and the alignment alone: any two
/// results for the same scene and alignment hold the same bytes and the
/// same slices.
pub proof fn lemma_packing_is_deterministic(
    scene: Scene,
    align: nat,
    a: AllBoneTransforms,
    b: AllBoneTransforms,
)
    requires
        packing_result(scene, align, a),
        packing_result(scene, align, b),
    ensures
        a.buffer@ == b.buffer@,
        a.animated_bone_transforms@ == b.animated_bone_transforms@,
        a.identity_slice == b.identity_slice,
{
}

/// Drawable meshes animated by the same skin get the same byte range, and
/// that range is exactly 64 bytes per bone of the skin: the skin is written
/// once and every mesh of it points there.
pub proof fn lemma_shared_skin_shares_range(scene: Scene, align: nat, all: AllBoneTransforms)
    requires
        scene.wf(),
        align > 0,
        packing_result(scene, align, all),
        all.buffer@.len() <= usize::MAX,
    ensures
        forall|i: int, j: int|
            0 <= i < all.animated_bone_transforms@.len() && 0 <= j
                < all.animated_bone_transforms@.len() && scene.mesh_skin(
                #[trigger] all.animated_bone_transforms@[i].drawable_mesh_index as int,
            ) == scene.mesh_skin(
                #[trigger] all.animated_bone_transforms@[j].drawable_mesh_index as int,
            ) ==> all.animated_bone_transforms@[i].start_index
                == all.animated_bone_transforms@[j].start_index
                && all.animated_bone_transforms@[i].end_index
                == all.animated_bone_transforms@[j].end_index,
        forall|i: int|
            0 <= i < all.animated_bone_transforms@.len() ==> {
                let sl = #[trigger] all.animated_bone_transforms@[i];
                &&& sl.start_index <= sl.end_index
                &&& sl.end_index - sl.start_index == 64 * mesh_bone_count(
                    scene,
                    sl.drawable_mesh_index as int,
                )
            },
{
    lemma_pack_inv(scene, align, scene.drawable_meshes@.len());
    let st = pack_all(scene, align)->Some_0;
    assert forall|i: int, j: int|
        0 <= i < all.animated_bone_transforms@.len() && 0 <= j
            < all.animated_bone_transforms@.len() && scene.mesh_skin(
            #[trigger] all.animated_bone_transforms@[i].drawable_mesh_index as int,
        ) == scene.mesh_skin(
            #[trigger] all.animated_bone_transforms@[j].drawable_mesh_index as int,
        ) implies all.animated_bone_transforms@[i].start_index
        == all.animated_bone_transforms@[j].start_index
        && all.animated_bone_transforms@[i].end_index
        == all.animated_bone_transforms@[j].end_index by {
        assert(st.slices[i] == all.animated_bone_transforms@[i]);
        assert(st.slices[j] == all.animated_bone_transforms@[j]);
    }
    assert forall|i: int| 0 <= i < all.animated_bone_transforms@.len() implies {
        let sl = #[trigger] all.animated_bone_transforms@[i];
        &&& sl.start_index <= sl.end_index
        &&& sl.end_index - sl.start_index == 64 * mesh_bone_count(
            scene,
            sl.drawable_mesh_index as int,
        )
    } by {
        let sl = st.slices[i];
        let x = scene.mesh_skin(sl.drawable_mesh_index as int)->Some_0;
        assert(st.placed.contains_key(x));
    }
}

/// The first skin written starts right after the identity region; every
/// other skin starts at a multiple of the alignment.
pub proof fn lemma_ranges_are_aligned(scene: Scene, align: nat, all: AllBoneTransforms)
    requires
        scene.wf(),
        align > 0,
        packing_result(scene, align, all),
        all.buffer@.len() <= usize::MAX,
    ensures
        forall|i: int|
            0 <= i < all.animated_bone_transforms@.len() ==> {
                let sl = #[trigger] all.animated_bone_transforms@[i];
                let first = all.animated_bone_transforms@[0];
                if scene.mesh_skin(sl.drawable_mesh_index as int) == scene.mesh_skin(
                    first.drawable_mesh_index as int,
                ) {
                    sl.start_index == identity_region_len()
                } else {
                    sl.start_index as nat % align == 0
                }
            },
{
    lemma_pack_inv(scene, align, scene.drawable_meshes@.len());
    let st = pack_all(scene, align)->Some_0;
    assert forall|i: int| 0 <= i < all.animated_bone_transforms@.len() implies {
        let sl = #[trigger] all.animated_bone_transforms@[i];
        let first = all.animated_bone_transforms@[0];
        if scene.mesh_skin(sl.drawable_mesh_index as int) == scene.mesh_skin(
            first.drawable_mesh_index as int,
        ) {
            sl.start_index == identity_region_len()
        } else {
            sl.start_index as nat % align == 0
        }
    } by {
        let sl = st.slices[i];
        let x = scene.mesh_skin(sl.drawable_mesh_index as int)->Some_0;
        assert(st.placed.contains_key(x));
        let f = st.slices[0];
        assert(scene.mesh_skin(f.drawable_mesh_index as int) is Some);
    }
}

/// The buffer holds the identity region and then, for each skin once, its
/// bones at 64 bytes each and the padding after them.
pub proof fn lemma_buffer_size(scene: Scene, align: nat, all: AllBoneTransforms)
    requires
        scene.wf(),
        align > 0,
        packing_result(scene, align, all),
    ensures
        all.buffer@.len() == 4 * 64 + region_total(scene, align, scene.drawable_meshes@.len()),
{
    lemma_pack_inv(scene, align, scene.drawable_meshes@.len());
}

/// Packing only appends after the identity region.
proof fn lemma_prefix_keeps_identity(scene: Scene, align: nat, k: nat)
    ensures
        pack_prefix(scene, align, k) matches Some(st) ==> st.buffer.len() >= identity_region_len()
            && st.buffer.subrange(0, identity_region_len() as int) == identity_region(),
    decreases k,
{
    if k == 0 {
        lemma_matrices_bytes_len(Seq::new(IDENTITY_BONE_COUNT as nat, |i: int| identity_matrix()));
        assert(identity_region().subrange(0, identity_region_len() as int) =~= identity_region());
    } else {
        lemma_prefix_keeps_identity(scene, align, (k - 1) as nat);
        if let Some(st) = pack_prefix(scene, align, (k - 1) as nat) {
            if let Some(next) = pack_prefix(scene, align, k) {
                let n = identity_region_len() as int;
                assert(next.buffer.subrange(0, n) =~= st.buffer.subrange(0, n));
            }
        }
    }
}

/// Whatever the scene, the buffer begins with the identity region: four
/// identity matrices at bytes `[0, 256)`.
pub proof fn lemma_identity_region_leads(scene: Scene, align: nat, all: AllBoneTransforms)
    requires
        packing_result(scene, align, all),
    ensures
        all.identity_slice == (0usize, 256usize),
        all.buffer@.len() >= 256,
        all.buffer@.subrange(0, 256) == matrices_bytes(
            Seq::new(4, |i: int| identity_matrix()),
        ),
{
    lemma_prefix_keeps_identity(scene, align, scene.drawable_meshes@.len());
}

} // verus!
