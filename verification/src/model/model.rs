//! Models: groups of meshes that are placed together, and the making of
//! meshes from what a loader read.

use super::mesh::Mesh;
use crate::asset_manager::{AssetId, Named};
use crate::id_pool::is_id_pool;
use crate::sparse_map::SparseMap;
use std::collections::VecDeque;
use vstd::prelude::*;

verus! {

/// One placement of a model: the placement of each of its meshes, in the
/// order of the model's meshes.
pub struct ModelInstance {
    pub mesh_instance_ids: Vec<usize>,
}

/// A model: the meshes that it is made of, `M` being the type of a mesh, and
/// its placements.
pub struct Model<M> {
    pub name: String,
    pub mesh_ids: Vec<AssetId<M>>,
    pub instances: SparseMap<ModelInstance>,
    pub free_ids: VecDeque<usize>,
}

impl<M> Named for Model<M> {
    open spec fn name_spec(&self) -> Seq<char> {
        self.name@
    }

    fn name(&self) -> (r: &str) {
        self.name.as_str()
    }
}

impl<M> Model<M> {
    /// Validity of the placements: their ids form a pool with the vacated
    /// ids, and each placement names a placement of every mesh.
    pub open spec fn wf(&self) -> bool {
        &&& self.instances.wf()
        &&& is_id_pool(self.instances@.dom(), self.free_ids@)
        &&& forall|id: usize| #[trigger]
            self.instances@.contains_key(id) ==> self.instances@[id].mesh_instance_ids@.len()
                == self.mesh_ids@.len()
    }

    /// The indices of the model's meshes in the mesh store.
    pub open spec fn mesh_indices(&self) -> Seq<usize> {
        Seq::new(self.mesh_ids@.len(), |k: int| self.mesh_ids@[k]@)
    }

    /// A model without placements.
    pub fn new(name: String, mesh_ids: Vec<AssetId<M>>) -> (r: Self)
        ensures
            r.wf(),
            r.name == name,
            r.mesh_ids == mesh_ids,
            r.instances@ == Map::<usize, ModelInstance>::empty(),
            r.free_ids@ == Seq::<usize>::empty(),
    {
        let r = Self { name, mesh_ids, instances: SparseMap::new(), free_ids: VecDeque::new() };
        proof {
            assert(r.instances@.dom() =~= Set::<usize>::empty());
            assert(r.free_ids@ =~= Seq::<usize>::empty());
        }
        r
    }
}

/// What a loader read of one mesh: its name in the file, its triangles as
/// triples of vertex indices, its vertices, a box round them, and the place
/// of its material among the file's materials.
pub struct MeshSource<V, B> {
    pub name: String,
    pub indices: Vec<u32>,
    pub vertices: Vec<V>,
    pub local_bounds: B,
    pub material_id: Option<usize>,
}

/// The place from which index `i` of a list of triangles is taken when the
/// winding of every triangle is reversed: the first and the last index of
/// each whole triple change places.
pub open spec fn reversed_from(len: int, i: int) -> int {
    if i >= (len / 3) * 3 {
        i
    } else if i % 3 == 0 {
        i + 2
    } else if i % 3 == 2 {
        i - 2
    } else {
        i
    }
}

/// Triangles with the winding of each one reversed.
pub open spec fn reversed_winding(indices: Seq<usize>) -> Seq<usize> {
    Seq::new(indices.len(), |i: int| indices[reversed_from(indices.len() as int, i)])
}

/// Reverses the winding of every triangle: the first and the last index of
/// each whole triple change places.
pub fn reverse_winding(indices: &mut Vec<usize>)
    ensures
        final(indices)@ == reversed_winding(old(indices)@),
{
    let len = indices.len();
    let triangles = len / 3;
    let mut t: usize = 0;
    while t < triangles
        invariant
            t <= triangles,
            triangles == len / 3,
            len == indices@.len(),
            len == old(indices)@.len(),
            forall|i: int|
                0 <= i < 3 * t ==> indices@[i] == old(indices)@[reversed_from(len as int, i)],
            forall|i: int| 3 * t <= i < len ==> indices@[i] == old(indices)@[i],
        decreases triangles - t,
    {
        let first = indices[3 * t];
        let last = indices[3 * t + 2];
        indices[3 * t] = last;
        indices[3 * t + 2] = first;
        t += 1;
    }
    assert(indices@ =~= reversed_winding(old(indices)@));
}

/// The indices of a loaded mesh, widened to the machine's index type.
pub fn widen_indices(indices: &[u32]) -> (r: Vec<usize>)
    ensures
        r@.len() == indices@.len(),
        forall|i: int| 0 <= i < indices@.len() ==> r@[i] == indices@[i],
{
    let mut r: Vec<usize> = Vec::new();
    let mut i: usize = 0;
    while i < indices.len()
        invariant
            i <= indices@.len(),
            r@.len() == i,
            forall|j: int| 0 <= j < i ==> r@[j] == indices@[j],
        decreases indices@.len() - i,
    {
        r.push(indices[i] as usize);
        i += 1;
    }
    r
}

/// The character of a decimal digit.
pub open spec fn digit(d: nat) -> char {
    ((48 + d) as u8) as char
}

/// A number in decimal, without leading zeros.
pub open spec fn decimal(n: nat) -> Seq<char>
    decreases n,
{
    if n < 10 {
        seq![digit(n)]
    } else {
        decimal(n / 10).push(digit(n % 10))
    }
}

/// The number of names before place `i` that are equal to the name at `i`.
pub open spec fn earlier_equal(names: Seq<Seq<char>>, i: int, n: int) -> nat
    decreases n,
{
    if n <= 0 {
        0
    } else {
        earlier_equal(names, i, n - 1) + if names[n - 1] == names[i] {
            1nat
        } else {
            0nat
        }
    }
}

/// The name that the mesh at place `i` gets: its own name where no mesh
/// before it has the same, else its name with the number of those meshes in
/// brackets behind it.
pub open spec fn unique_name(names: Seq<Seq<char>>, i: int) -> Seq<char> {
    if earlier_equal(names, i, i) == 0 {
        names[i]
    } else {
        names[i] + " ("@ + decimal(earlier_equal(names, i, i)) + ")"@
    }
}

/// `format!("{} ({})", name, n)`: the name, a space, and the number in
/// decimal between round brackets.
#[verifier::external_body]
fn numbered_name(name: &str, n: usize) -> (r: String)
    ensures
        r@ == name@ + " ("@ + decimal(n as nat) + ")"@,
{
    format!("{} ({})", name, n)
}

/// The name for the mesh at place `i` of `sources`, told apart from the
/// meshes before it that have the same name.
pub fn mesh_name<V, B>(sources: &Vec<MeshSource<V, B>>, i: usize) -> (r: String)
    requires
        i < sources@.len(),
    ensures
        r@ == unique_name(source_names(sources@), i as int),
{
    let ghost names = source_names(sources@);
    let mut duplicates: usize = 0;
    let mut k: usize = 0;
    while k < i
        invariant
            k <= i < sources@.len(),
            names == source_names(sources@),
            duplicates == earlier_equal(names, i as int, k as int),
            duplicates <= k,
        decreases i - k,
    {
        if sources[k].name == sources[i].name {
            duplicates += 1;
        }
        k += 1;
    }
    if duplicates == 0 {
        sources[i].name.clone()
    } else {
        numbered_name(sources[i].name.as_str(), duplicates)
    }
}

/// The names of the loaded meshes, as they stand in the file.
pub open spec fn source_names<V, B>(sources: Seq<MeshSource<V, B>>) -> Seq<Seq<char>> {
    Seq::new(sources.len(), |i: int| sources[i].name@)
}

/// Makes a mesh of each loaded mesh, in the order of the file, paired with
/// the place of its material.  A mesh keeps its name where no mesh before it
/// has the same; a later one of the same name gets a number behind it.  With
/// `reverse_winding` the winding of every triangle is reversed.  No mesh has
/// a texture or a placement yet.
pub fn load_meshes<V, P, B: Copy, X>(sources: Vec<MeshSource<V, B>>, reverse_winding: bool) -> (meshes:
    Vec<(Mesh<V, P, B, X>, Option<usize>)>)
    ensures
        meshes@.len() == sources@.len(),
        forall|i: int|
            0 <= i < sources@.len() ==> {
                let mesh = (#[trigger] meshes@[i]).0;
                &&& mesh.wf()
                &&& mesh.name@ == unique_name(source_names(sources@), i)
                &&& mesh.vertices == sources@[i].vertices
                &&& mesh.indices@.len() == sources@[i].indices@.len()
                &&& mesh.indices@ == (if reverse_winding {
                    reversed_winding(sources@[i].indices@.map_values(|x: u32| x as usize))
                } else {
                    sources@[i].indices@.map_values(|x: u32| x as usize)
                })
                &&& mesh.texture_id.is_none()
                &&& mesh.local_bounds == sources@[i].local_bounds
                &&& mesh.instances@ == Map::<usize, super::mesh::MeshInstance<P, B>>::empty()
                &&& meshes@[i].1 == sources@[i].material_id
            },
{
    let mut names: Vec<String> = Vec::new();
    let mut i: usize = 0;
    while i < sources.len()
        invariant
            i <= sources@.len(),
            names@.len() == i,
            forall|j: int|
                0 <= j < i ==> (#[trigger] names@[j])@ == unique_name(source_names(sources@), j),
        decreases sources@.len() - i,
    {
        let name = mesh_name(&sources, i);
        names.push(name);
        i += 1;
    }
    let mut meshes: Vec<(Mesh<V, P, B, X>, Option<usize>)> = Vec::new();
    let ghost given = sources@;
    for source in it: sources
        invariant
            it.seq() == given,
            names@.len() == given.len(),
            forall|j: int|
                0 <= j < given.len() ==> (#[trigger] names@[j])@ == unique_name(
                    source_names(given),
                    j,
                ),
            meshes@.len() == it.index(),
            forall|i: int|
                0 <= i < it.index() ==> {
                    let mesh = (#[trigger] meshes@[i]).0;
                    &&& mesh.wf()
                    &&& mesh.name@ == unique_name(source_names(given), i)
                    &&& mesh.vertices == given[i].vertices
                    &&& mesh.indices@.len() == given[i].indices@.len()
                    &&& mesh.indices@ == (if reverse_winding {
                        reversed_winding(given[i].indices@.map_values(|x: u32| x as usize))
                    } else {
                        given[i].indices@.map_values(|x: u32| x as usize)
                    })
                    &&& mesh.texture_id.is_none()
                    &&& mesh.local_bounds == given[i].local_bounds
                    &&& mesh.instances@ == Map::<usize, super::mesh::MeshInstance<P, B>>::empty()
                    &&& meshes@[i].1 == given[i].material_id
                },
    {
        let ghost at = meshes@.len() as int;
        let mut indices = widen_indices(source.indices.as_slice());
        assert(indices@ =~= source.indices@.map_values(|x: u32| x as usize));
        if reverse_winding {
            self::reverse_winding(&mut indices);
        }
        let name = names[meshes.len()].clone();
        let material_id = source.material_id;
        let mesh = Mesh::new(name, source.vertices, indices, None, source.local_bounds);
        meshes.push((mesh, material_id));
    }
    meshes
}

} // verus!
