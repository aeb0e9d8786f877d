//! Triangle meshes and their placements in the world.

use crate::asset_manager::{AssetId, Named};
use crate::id_pool::{free_after_take, is_id_pool, lemma_pool_release, lemma_pool_take, next_id};
use crate::sparse_map::SparseMap;
use std::collections::VecDeque;
use vstd::prelude::*;

verus! {

/// One placement of a mesh in the world: the world position of every vertex
/// of the mesh, a box round them in world space, and the same box as the
/// camera sees it.
pub struct MeshInstance<P, B> {
    pub world_positions: Vec<P>,
    pub world_bounds: B,
    pub view_bounds: B,
}

impl<P, B> MeshInstance<P, B> {
    /// The box round the placement as the camera sees it.
    pub fn view_bounds(&self) -> (r: &B)
        ensures
            *r == self.view_bounds,
    {
        &self.view_bounds
    }
}

/// A mesh: vertices, the triangles as triples of vertex indices, an optional
/// texture, a box round the vertices, and the placements of the mesh.
///
/// `V` is the type of a vertex, `P` that of a position in the world, `B` that
/// of a bounding box and `X` that of a texture.
pub struct Mesh<V, P, B, X> {
    pub name: String,
    pub vertices: Vec<V>,
    pub indices: Vec<usize>,
    pub texture_id: Option<AssetId<X>>,
    pub local_bounds: B,
    pub instances: SparseMap<MeshInstance<P, B>>,
    pub free_ids: VecDeque<usize>,
}

impl<V, P, B, X> Named for Mesh<V, P, B, X> {
    open spec fn name_spec(&self) -> Seq<char> {
        self.name@
    }

    fn name(&self) -> (r: &str) {
        self.name.as_str()
    }
}

/// The indices list whole triangles of a mesh with `vertex_count` vertices.
pub open spec fn are_triangles(indices: Seq<usize>, vertex_count: nat) -> bool {
    &&& indices.len() % 3 == 0
    &&& forall|i: int| 0 <= i < indices.len() ==> #[trigger] indices[i] < vertex_count
}

/// `instance` places the vertices `vertices` with `place` and the box
/// `local_bounds` with `bound`.
pub open spec fn is_placement<V, P, B, F: Fn(&V) -> P, G: Fn(&B) -> B>(
    vertices: Seq<V>,
    local_bounds: B,
    place: &F,
    bound: &G,
    instance: MeshInstance<P, B>,
) -> bool {
    &&& instance.world_positions@.len() == vertices.len()
    &&& forall|k: int|
        0 <= k < vertices.len() ==> call_ensures(
            *place,
            (&vertices[k],),
            #[trigger] instance.world_positions@[k],
        )
    &&& call_ensures(*bound, (&local_bounds,), instance.world_bounds)
}

impl<V, P, B: Copy, X> Mesh<V, P, B, X> {
    /// Validity of the placements: their ids form a pool with the vacated
    /// ids, and each placement has a position for every vertex.
    pub open spec fn wf(&self) -> bool {
        &&& self.instances.wf()
        &&& is_id_pool(self.instances@.dom(), self.free_ids@)
        &&& forall|id: usize| #[trigger]
            self.instances@.contains_key(id) ==> self.instances@[id].world_positions@.len()
                == self.vertices@.len()
    }

    /// Everything but the placements is the same in both meshes.
    pub open spec fn same_geometry(&self, other: &Self) -> bool {
        &&& self.name == other.name
        &&& self.vertices == other.vertices
        &&& self.indices == other.indices
        &&& self.texture_id == other.texture_id
        &&& self.local_bounds == other.local_bounds
    }

    /// `after` is this mesh with one more placement, under the id `id`, made
    /// with `place` and `bound`.
    pub open spec fn is_spawned<F: Fn(&V) -> P, G: Fn(&B) -> B>(
        &self,
        after: &Self,
        id: usize,
        place: &F,
        bound: &G,
    ) -> bool {
        &&& after.same_geometry(self)
        &&& id == next_id(self.instances@.dom(), self.free_ids@)
        &&& after.free_ids@ == free_after_take(self.free_ids@)
        &&& after.instances@.contains_key(id)
        &&& after.instances@ == self.instances@.insert(id, after.instances@[id])
        &&& is_placement(self.vertices@, self.local_bounds, place, bound, after.instances@[id])
        &&& after.instances@[id].view_bounds == after.instances@[id].world_bounds
    }

    /// A mesh without placements.
    pub fn new(
        name: String,
        vertices: Vec<V>,
        indices: Vec<usize>,
        texture_id: Option<AssetId<X>>,
        local_bounds: B,
    ) -> (r: Self)
        ensures
            r.wf(),
            r.name == name,
            r.vertices == vertices,
            r.indices == indices,
            r.texture_id == texture_id,
            r.local_bounds == local_bounds,
            r.instances@ == Map::<usize, MeshInstance<P, B>>::empty(),
            r.free_ids@ == Seq::<usize>::empty(),
    {
        let r = Self {
            name,
            vertices,
            indices,
            texture_id,
            local_bounds,
            instances: SparseMap::new(),
            free_ids: VecDeque::new(),
        };
        proof {
            assert(r.instances@.dom() =~= Set::<usize>::empty());
            assert(r.free_ids@ =~= Seq::<usize>::empty());
        }
        r
    }

    /// The number of triangles: the whole triples of indices.
    pub fn triangle_count(&self) -> (n: usize)
        ensures
            n == self.indices@.len() / 3,
    {
        self.indices.len() / 3
    }

    /// Places the mesh in the world.  `place` gives the world position of a
    /// vertex and `bound` the world box of the mesh's own box.  The placement
    /// gets the id that was vacated first, or the next index where none is
    /// vacant.
    pub fn spawn_instance<F: Fn(&V) -> P, G: Fn(&B) -> B>(&mut self, place: &F, bound: &G) -> (id:
        usize)
        requires
            old(self).wf(),
            forall|v: &V| call_requires(*place, (v,)),
            forall|b: &B| call_requires(*bound, (b,)),
        ensures
            final(self).wf(),
            !old(self).instances@.contains_key(id),
            old(self).is_spawned(final(self), id, place, bound),
    {
        let world_bounds = bound(&self.local_bounds);
        let mut world_positions: Vec<P> = Vec::new();
        let count = self.vertices.len();
        let mut k: usize = 0;
        while k < count
            invariant
                k <= count,
                count == self.vertices@.len(),
                *self == *old(self),
                world_positions@.len() == k,
                forall|v: &V| call_requires(*place, (v,)),
                forall|j: int|
                    0 <= j < k ==> call_ensures(
                        *place,
                        (&self.vertices@[j],),
                        #[trigger] world_positions@[j],
                    ),
            decreases count - k,
        {
            let position = place(&self.vertices[k]);
            world_positions.push(position);
            k += 1;
        }
        let live = self.instances.len();
        proof {
            self.instances.lemma_dense();
            lemma_pool_take(self.instances@.dom(), self.free_ids@);
        }
        let id = match self.free_ids.pop_front() {
            Some(id) => id,
            None => live,
        };
        proof {
            if old(self).free_ids@.len() > 0 {
                assert(self.free_ids@ =~= old(self).free_ids@.skip(1));
            }
        }
        self.instances.insert(
            id,
            MeshInstance { world_positions, world_bounds, view_bounds: world_bounds },
        );
        proof {
            assert(self.instances@.dom() =~= old(self).instances@.dom().insert(id));
        }
        id
    }

    /// Takes the placement `instance_id` away; its id becomes vacant.
    pub fn remove_instance(&mut self, instance_id: usize)
        requires
            old(self).wf(),
            old(self).instances@.contains_key(instance_id),
        ensures
            final(self).wf(),
            final(self).same_geometry(old(self)),
            final(self).instances@ == old(self).instances@.remove(instance_id),
            final(self).free_ids@ == old(self).free_ids@.push(instance_id),
    {
        proof {
            lemma_pool_release(self.instances@.dom(), self.free_ids@, instance_id);
        }
        let removed = self.instances.remove(instance_id);
        self.free_ids.push_back(instance_id);
        proof {
            assert(self.instances@.dom() =~= old(self).instances@.dom().remove(instance_id));
        }
    }

    /// Places the placement `instance_id` anew, with `place` and `bound`.
    /// Its box in view space stays as it is.
    pub fn update_instance_world_space<F: Fn(&V) -> P, G: Fn(&B) -> B>(
        &mut self,
        instance_id: usize,
        place: &F,
        bound: &G,
    )
        requires
            old(self).wf(),
            old(self).instances@.contains_key(instance_id),
            forall|v: &V| call_requires(*place, (v,)),
            forall|b: &B| call_requires(*bound, (b,)),
        ensures
            final(self).wf(),
            final(self).same_geometry(old(self)),
            final(self).free_ids@ == old(self).free_ids@,
            final(self).instances@.contains_key(instance_id),
            final(self).instances@ == old(self).instances@.insert(
                instance_id,
                final(self).instances@[instance_id],
            ),
            is_placement(
                old(self).vertices@,
                old(self).local_bounds,
                place,
                bound,
                final(self).instances@[instance_id],
            ),
            final(self).instances@[instance_id].view_bounds == old(self).instances@[instance_id].view_bounds,
    {
        let world_bounds = bound(&self.local_bounds);
        let count = self.vertices.len();
        let instance = self.instances.get_mut(instance_id).unwrap();
        instance.world_bounds = world_bounds;
        let mut k: usize = 0;
        while k < count
            invariant
                k <= count,
                count == self.vertices@.len(),
                self.vertices == old(self).vertices,
                instance.world_positions@.len() == count,
                instance.world_bounds == world_bounds,
                instance.view_bounds == old(self).instances@[instance_id].view_bounds,
                forall|v: &V| call_requires(*place, (v,)),
                forall|j: int|
                    0 <= j < k ==> call_ensures(
                        *place,
                        (&self.vertices@[j],),
                        #[trigger] instance.world_positions@[j],
                    ),
            decreases count - k,
        {
            let position = place(&self.vertices[k]);
            instance.world_positions[k] = position;
            k += 1;
        }
        proof {
            assert(self.instances@.dom() =~= old(self).instances@.dom());
        }
    }

    /// Brings the view-space box of every placement up to date: `view` gives
    /// the view-space box of a world-space box.
    pub fn update_all_view_bounds<G: Fn(&B) -> B>(&mut self, view: &G)
        requires
            old(self).wf(),
            forall|b: &B| call_requires(*view, (b,)),
        ensures
            final(self).wf(),
            final(self).same_geometry(old(self)),
            final(self).free_ids@ == old(self).free_ids@,
            final(self).instances.dense_ids() == old(self).instances.dense_ids(),
            final(self).instances@.dom() == old(self).instances@.dom(),
            forall|id: usize| #[trigger]
                final(self).instances@.contains_key(id) ==> final(self).instances@[id].world_positions == old(self).instances@[id].world_positions
                    && final(self).instances@[id].world_bounds == old(self).instances@[id].world_bounds && call_ensures(
                    *view,
                    (&old(self).instances@[id].world_bounds,),
                    final(self).instances@[id].view_bounds,
                ),
    {
        let count = self.instances.len();
        let mut p: usize = 0;
        proof {
            self.instances.lemma_dense();
        }
        while p < count
            invariant
                p <= count,
                self.instances.wf(),
                old(self).instances.wf(),
                count == self.instances.dense().len(),
                self.same_geometry(old(self)),
                self.free_ids == old(self).free_ids,
                self.instances.dense_ids() == old(self).instances.dense_ids(),
                self.instances@.dom() == old(self).instances@.dom(),
                forall|b: &B| call_requires(*view, (b,)),
                forall|id: usize| #[trigger]
                    self.instances@.contains_key(id) ==> self.instances.position(id) == old(self).instances.position(id) && self.instances@[id].world_positions == old(self).instances@[id].world_positions && self.instances@[id].world_bounds == old(self).instances@[id].world_bounds && (if self.instances.position(id) < p {
                        call_ensures(
                            *view,
                            (&old(self).instances@[id].world_bounds,),
                            self.instances@[id].view_bounds,
                        )
                    } else {
                        self.instances@[id].view_bounds == old(self).instances@[id].view_bounds
                    }),
            decreases count - p,
        {
            let id = self.instances.id_at(p);
            let ghost before = self.instances;
            let instance = self.instances.get_mut(id).unwrap();
            instance.view_bounds = view(&instance.world_bounds);
            proof {
                assert(self.instances@.dom() =~= before@.dom());
                self.instances.lemma_dense();
                before.lemma_dense();
            }
            p += 1;
        }
        proof {
            self.instances.lemma_dense();
        }
    }
}

} // verus!
