//! The scene graph as this library reads it: an arena of nodes, a parent
//! lookup kept apart from the nodes, the skins, and the drawable meshes with
//! their instances.
use std::collections::HashMap;

use vstd::prelude::*;
use vstd::std_specs::hash::*;

use crate::matrix::Mat4;

verus! {

broadcast use {axiom_usize_obeys_hash_table_key_model, axiom_random_state_builds_valid_hashers};

/// One element of the scene forest.
pub struct Node {
    /// The local transform, relative to the parent node.
    pub transform: Mat4,
    /// The skin that this node roots, if any.
    pub skin_index: Option<usize>,
    /// The mesh drawn at this node, if any.
    pub mesh_index: Option<usize>,
}

/// A skeleton: bones in a fixed order, each with its inverse-bind matrix.
pub struct Skin {
    pub bone_node_indices: Vec<usize>,
    pub bone_inverse_bind_matrices: Vec<Mat4>,
}

/// One placement of a drawable mesh, at a node.
pub struct MeshInstance {
    pub node_index: usize,
}

/// A mesh that is drawn, with all its placements.
pub struct DrawableMesh {
    pub instances: Vec<MeshInstance>,
}

/// The scene forest with its skins and drawable meshes, all referring to
/// one another by index.
pub struct Scene {
    pub nodes: Vec<Node>,
    /// Node index to the index of its parent, for every node that has one.
    pub parent_index_map: HashMap<usize, usize>,
    pub skins: Vec<Skin>,
    pub drawable_meshes: Vec<DrawableMesh>,
}

/// The chain from `n` upwards through `m`, closest first and `n` itself at
/// the front, taking at most `fuel` parent steps. In a map without cycles
/// a chain never takes more steps than the map has keys.
pub open spec fn ancestry(m: Map<usize, usize>, n: usize, fuel: nat) -> Seq<usize>
    decreases fuel,
{
    if fuel > 0 && m.contains_key(n) {
        seq![n] + ancestry(m, m[n], (fuel - 1) as nat)
    } else {
        seq![n]
    }
}

/// The node's ancestry through `m` as a whole, bounded by its size.
pub open spec fn ancestry_list(m: Map<usize, usize>, n: usize) -> Seq<usize> {
    ancestry(m, n, m.len())
}

/// Walks up from `node_index` through `parent_index_map` and lists the
/// node and its ancestors, closest first.
pub fn get_node_ancestry_list(node_index: usize, parent_index_map: &HashMap<usize, usize>) -> (r:
    Vec<usize>)
    ensures
        r@ == ancestry_list(parent_index_map@, node_index),
{
    let ghost m = parent_index_map@;
    let mut list: Vec<usize> = Vec::new();
    let mut current = node_index;
    let mut fuel = parent_index_map.len();
    loop
        invariant
            m == parent_index_map@,
            list@ + ancestry(m, current, fuel as nat) == ancestry_list(m, node_index),
        decreases fuel,
    {
        list.push(current);
        if fuel == 0 {
            assert(list@ =~= ancestry_list(m, node_index));
            return list;
        }
        match parent_index_map.get(&current) {
            Some(parent) => {
                assert(ancestry(m, current, fuel as nat) =~= seq![current] + ancestry(
                    m,
                    *parent,
                    (fuel - 1) as nat,
                ));
                current = *parent;
                fuel = fuel - 1;
                assert(list@ + ancestry(m, current, fuel as nat) =~= ancestry_list(m, node_index));
            },
            None => {
                assert(list@ =~= ancestry_list(m, node_index));
                return list;
            },
        }
    }
}

impl Scene {
    /// The scene's own integrity: every index it holds points inside it,
    /// and each skin has one inverse-bind matrix per bone.
    pub open spec fn wf(&self) -> bool {
        &&& self.drawable_meshes@.len() <= usize::MAX
        &&& forall|k: usize|
            #![trigger self.parent_index_map@.contains_key(k)]
            self.parent_index_map@.contains_key(k) ==> k < self.nodes@.len()
                && self.parent_index_map@[k] < self.nodes@.len()
        &&& forall|i: int|
            #![trigger self.nodes@[i]]
            0 <= i < self.nodes@.len() ==> match self.nodes@[i].skin_index {
                Some(s) => s < self.skins@.len(),
                None => true,
            }
        &&& forall|s: int|
            #![trigger self.skins@[s]]
            0 <= s < self.skins@.len() ==> self.skins@[s].wf(self.nodes@.len())
        &&& forall|mi: int, j: int|
            0 <= mi < self.drawable_meshes@.len() && 0 <= j
                < self.drawable_meshes@[mi].instances@.len()
                ==> #[trigger] self.drawable_meshes@[mi].instances@[j].node_index
                < self.nodes@.len()
    }

    /// The first node, from `n` upwards, that roots a skin, taking at most
    /// `fuel` parent steps.
    pub open spec fn root_search(&self, n: usize, fuel: nat) -> Option<usize>
        decreases fuel,
    {
        if self.nodes@[n as int].skin_index is Some {
            Some(n)
        } else if fuel > 0 && self.parent_index_map@.contains_key(n) {
            self.root_search(self.parent_index_map@[n], (fuel - 1) as nat)
        } else {
            None
        }
    }

    /// The model root of the skeleton that node `n` belongs to: the closest
    /// node on its ancestry, itself included, that roots a skin.
    pub open spec fn model_root(&self, n: usize) -> Option<usize> {
        self.root_search(n, self.parent_index_map@.len())
    }

    /// The model root of the first instance, in order, that lies in a
    /// skeleton.
    pub open spec fn first_root(&self, insts: Seq<MeshInstance>, j: int) -> Option<usize>
        decreases insts.len() - j,
    {
        if j < 0 || j >= insts.len() {
            None
        } else {
            match self.model_root(insts[j].node_index) {
                Some(r) => Some(r),
                None => self.first_root(insts, j + 1),
            }
        }
    }

    /// The model root that drawable mesh `mi` is animated by, if any.
    pub open spec fn mesh_model_root(&self, mi: int) -> Option<usize> {
        self.first_root(self.drawable_meshes@[mi].instances@, 0)
    }

    /// The skin that drawable mesh `mi` is animated by, if any.
    pub open spec fn mesh_skin(&self, mi: int) -> Option<usize> {
        match self.mesh_model_root(mi) {
            Some(r) => self.nodes@[r as int].skin_index,
            None => None,
        }
    }

    pub proof fn lemma_root_search(&self, n: usize, fuel: nat)
        requires
            self.wf(),
            n < self.nodes@.len(),
        ensures
            self.root_search(n, fuel) matches Some(r) ==> r < self.nodes@.len()
                && self.nodes@[r as int].skin_index is Some,
        decreases fuel,
    {
        if self.nodes@[n as int].skin_index is None && fuel > 0
            && self.parent_index_map@.contains_key(n) {
            self.lemma_root_search(self.parent_index_map@[n], (fuel - 1) as nat);
        }
    }

    pub proof fn lemma_first_root(&self, mi: int, j: int)
        requires
            self.wf(),
            0 <= mi < self.drawable_meshes@.len(),
        ensures
            self.first_root(self.drawable_meshes@[mi].instances@, j) matches Some(r) ==> r
                < self.nodes@.len() && self.nodes@[r as int].skin_index is Some,
        decreases self.drawable_meshes@[mi].instances@.len() - j,
    {
        let insts = self.drawable_meshes@[mi].instances@;
        if 0 <= j < insts.len() {
            let n = insts[j].node_index;
            assert(n < self.nodes@.len());
            self.lemma_root_search(n, self.parent_index_map@.len());
            self.lemma_first_root(mi, j + 1);
        }
    }

    /// The model root of the skeleton that `node_index` belongs to: the
    /// closest node, from it upwards, that roots a skin.
    pub fn get_model_root_if_in_skeleton(&self, node_index: usize) -> (r: Option<usize>)
        requires
            self.wf(),
            node_index < self.nodes@.len(),
        ensures
            r == self.model_root(node_index),
    {
        let mut current = node_index;
        let mut fuel = self.parent_index_map.len();
        loop
            invariant
                self.wf(),
                current < self.nodes@.len(),
                self.root_search(current, fuel as nat) == self.model_root(node_index),
            decreases fuel,
        {
            if self.nodes[current].skin_index.is_some() {
                return Some(current);
            }
            if fuel == 0 {
                return None;
            }
            match self.parent_index_map.get(&current) {
                Some(parent) => {
                    current = *parent;
                    fuel = fuel - 1;
                },
                None => {
                    return None;
                },
            }
        }
    }

    /// The model root that drawable mesh `mesh_index` is animated by: that
    /// of the first of its instances that lies in a skeleton.
    pub fn get_mesh_model_root(&self, mesh_index: usize) -> (r: Option<usize>)
        requires
            self.wf(),
            mesh_index < self.drawable_meshes@.len(),
        ensures
            r == self.mesh_model_root(mesh_index as int),
    {
        let instances = &self.drawable_meshes[mesh_index].instances;
        let mut j: usize = 0;
        while j < instances.len()
            invariant
                self.wf(),
                mesh_index < self.drawable_meshes@.len(),
                *instances == self.drawable_meshes@[mesh_index as int].instances,
                j <= instances@.len(),
                self.first_root(instances@, j as int) == self.mesh_model_root(mesh_index as int),
            decreases instances.len() - j,
        {
            let found = self.get_model_root_if_in_skeleton(instances[j].node_index);
            if found.is_some() {
                return found;
            }
            j = j + 1;
        }
        None
    }
}

impl Skin {
    /// One inverse-bind matrix per bone, and every bone a node of the scene.
    pub open spec fn wf(&self, node_count: nat) -> bool {
        &&& self.bone_inverse_bind_matrices@.len() == self.bone_node_indices@.len()
        &&& forall|b: int|
            #![trigger self.bone_node_indices@[b]]
            0 <= b < self.bone_node_indices@.len() ==> self.bone_node_indices@[b] < node_count
    }
}

} // verus!
