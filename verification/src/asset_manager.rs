//! Typed asset handles and the stores that resolve them.

use crate::name_index::{
    index_clear, index_contains, index_get, index_insert, index_new, index_remove, name_bindings,
};
use crate::id_pool::{free_after_take, is_id_pool, lemma_pool_release, lemma_pool_take, next_id};
use crate::model::mesh::{Mesh, MeshInstance};
use crate::model::model::{Model, ModelInstance};
use crate::sparse_map::SparseMap;
use crate::texture::texture::Texture;
use std::collections::HashMap;
use std::collections::VecDeque;
use std::marker::PhantomData;
use vstd::prelude::*;

verus! {

/// A handle to an asset of type `T`.  It is a plain index; it means something
/// only to the store that handed it out.
pub struct AssetId<T> {
    inner: usize,
    _marker: PhantomData<T>,
}

impl<T> AssetId<T> {
    /// The index that the handle stands for.
    pub closed spec fn view(&self) -> usize {
        self.inner
    }

    /// The handle that stands for the index `id`.
    pub closed spec fn spec_new(id: usize) -> Self {
        AssetId { inner: id, _marker: PhantomData }
    }

    /// The handle that stands for the index `id`.
    pub fn new(id: usize) -> (r: Self)
        ensures
            r@ == id,
            r == Self::spec_new(id),
    {
        Self { inner: id, _marker: PhantomData }
    }

    /// The index that the handle stands for.
    pub fn index(&self) -> (i: usize)
        ensures
            i == self@,
    {
        self.inner
    }
}

impl<T> Copy for AssetId<T> {

}

impl<T> Clone for AssetId<T> {
    fn clone(&self) -> (r: Self)
        ensures
            r@ == self@,
    {
        Self { inner: self.inner, _marker: PhantomData }
    }
}

/// An asset that is known by a name.
pub trait Named {
    /// The characters of the asset's name.  A type says here what its name
    /// is; for a type that does not, the name is left open.
    open spec fn name_spec(&self) -> Seq<char> {
        vstd::pervasive::arbitrary()
    }

    fn name(&self) -> (r: &str)
        ensures
            r@ == self.name_spec(),
    ;
}

/// The abstract state of an asset store.
pub struct StoreModel<T> {
    /// The live assets by id.
    pub assets: Map<usize, T>,
    /// The name bindings.
    pub names: Map<Seq<char>, usize>,
    /// The vacated ids, oldest first.
    pub free: Seq<usize>,
}

impl<T: Named> StoreModel<T> {
    /// Validity of a store: the live and the vacated ids form a pool, and
    /// every bound name leads to a live asset of that name.
    pub open spec fn wf(self) -> bool {
        &&& is_id_pool(self.assets.dom(), self.free)
        &&& forall|name: Seq<char>| #[trigger]
            self.names.contains_key(name) ==> self.assets.contains_key(self.names[name])
                && self.assets[self.names[name]].name_spec() == name
    }

    /// Every live asset is found under its own name.  This holds as long as
    /// no two live assets share a name.
    pub open spec fn indexed(self) -> bool {
        forall|id: usize| #[trigger]
            self.assets.contains_key(id) ==> self.names.contains_key(self.assets[id].name_spec())
                && self.names[self.assets[id].name_spec()] == id
    }

    /// The store without assets.
    pub open spec fn empty() -> Self {
        StoreModel { assets: Map::empty(), names: Map::empty(), free: Seq::empty() }
    }

    /// The id that the next insertion hands out: the oldest vacated id, or
    /// the next dense index when none is vacated.
    pub open spec fn next_id(self) -> usize {
        next_id(self.assets.dom(), self.free)
    }

    /// The asset under `id`, if `id` is live.
    pub open spec fn get(self, id: usize) -> Option<T> {
        if self.assets.contains_key(id) {
            Some(self.assets[id])
        } else {
            None
        }
    }

    /// The id that `name` is bound to, if it is bound.
    pub open spec fn lookup(self, name: Seq<char>) -> Option<usize> {
        if self.names.contains_key(name) {
            Some(self.names[name])
        } else {
            None
        }
    }

    /// The store after `asset` was inserted.
    pub open spec fn insert(self, asset: T) -> Self {
        StoreModel {
            assets: self.assets.insert(self.next_id(), asset),
            names: self.names.insert(asset.name_spec(), self.next_id()),
            free: free_after_take(self.free),
        }
    }

    /// The store after the asset under `id` was removed; the store itself
    /// where `id` is not live.
    pub open spec fn remove(self, id: usize) -> Self {
        if self.assets.contains_key(id) {
            StoreModel {
                assets: self.assets.remove(id),
                names: self.names.remove(self.assets[id].name_spec()),
                free: self.free.push(id),
            }
        } else {
            self
        }
    }

    /// The store after the asset under a live `id` was overwritten.
    pub open spec fn write(self, id: usize, asset: T) -> Self {
        StoreModel { assets: self.assets.insert(id, asset), ..self }
    }

    /// Insertion keeps a store valid, and hands out an id that was not live.
    pub proof fn lemma_insert_wf(self, asset: T)
        requires
            self.wf(),
            self.assets.len() <= usize::MAX,
        ensures
            self.insert(asset).wf(),
            !self.assets.contains_key(self.next_id()),
    {
        let after = self.insert(asset);
        lemma_pool_take(self.assets.dom(), self.free);
        assert(after.assets.dom() =~= self.assets.dom().insert(self.next_id()));
        assert forall|name: Seq<char>| #[trigger] after.names.contains_key(name) implies 
            after.assets.contains_key(after.names[name])
                && after.assets[after.names[name]].name_spec() == name by {
            if name != asset.name_spec() {
                assert(self.names.contains_key(name));
            }
        }
    }

    /// Removal keeps a store valid.
    pub proof fn lemma_remove_wf(self, id: usize)
        requires
            self.wf(),
        ensures
            self.remove(id).wf(),
    {
        if self.assets.contains_key(id) {
            let after = self.remove(id);
            lemma_pool_release(self.assets.dom(), self.free, id);
            assert(after.assets.dom() =~= self.assets.dom().remove(id));
            assert forall|name: Seq<char>| #[trigger] after.names.contains_key(name) implies 
                after.assets.contains_key(after.names[name])
                    && after.assets[after.names[name]].name_spec() == name by {
                assert(self.names.contains_key(name));
            }
        }
    }

    /// Overwriting a live asset by one of the same name keeps a store valid.
    pub proof fn lemma_write_wf(self, id: usize, asset: T)
        requires
            self.wf(),
            self.assets.contains_key(id),
            asset.name_spec() == self.assets[id].name_spec(),
        ensures
            self.write(id, asset).wf(),
    {
        let after = self.write(id, asset);
        assert(after.assets.dom() =~= self.assets.dom());
        assert forall|name: Seq<char>| #[trigger] after.names.contains_key(name) implies 
            after.assets.contains_key(after.names[name])
                && after.assets[after.names[name]].name_spec() == name by {
            assert(self.names.contains_key(name));
        }
    }

    /// An inserted asset is found under the id that was handed out, and its
    /// name leads to that id.
    pub proof fn law_insert_round_trip(self, asset: T)
        requires
            self.wf(),
            self.assets.len() <= usize::MAX,
        ensures
            self.insert(asset).wf(),
            self.insert(asset).get(self.next_id()) == Some(asset),
            self.insert(asset).lookup(asset.name_spec()) == Some(self.next_id()),
            forall|id: usize|
                id != self.next_id() ==> self.insert(asset).get(id) == #[trigger] self.get(id),
    {
        self.lemma_insert_wf(asset);
    }

    /// After a live asset was removed, neither its id nor its name leads
    /// anywhere.
    pub proof fn law_remove_forgets(self, id: usize)
        requires
            self.wf(),
            self.assets.contains_key(id),
        ensures
            self.remove(id).wf(),
            self.remove(id).get(id).is_none(),
            self.remove(id).lookup(self.assets[id].name_spec()).is_none(),
    {
        self.lemma_remove_wf(id);
    }

    /// Vacated ids are handed out again, oldest first: after a removal the
    /// next insertion reuses the id that has been vacant for longest, which is
    /// the removed id itself when no other id was vacant.
    pub proof fn law_remove_reissues(self, id: usize, asset: T)
        requires
            self.wf(),
            self.assets.contains_key(id),
        ensures
            self.free.len() == 0 ==> self.remove(id).next_id() == id,
            self.free.len() > 0 ==> self.remove(id).next_id() == self.free[0],
            self.free.len() == 0 ==> self.remove(id).insert(asset).get(id) == Some(asset),
    {
    }

    /// Inserting an asset under a name that is not bound yet keeps every live
    /// asset findable by its name.
    pub proof fn law_insert_keeps_indexed(self, asset: T)
        requires
            self.wf(),
            self.indexed(),
            self.assets.len() <= usize::MAX,
            !self.names.contains_key(asset.name_spec()),
        ensures
            self.insert(asset).indexed(),
    {
        self.lemma_insert_wf(asset);
        let after = self.insert(asset);
        assert forall|id: usize| #[trigger] after.assets.contains_key(id) implies 
            after.names.contains_key(after.assets[id].name_spec())
                && after.names[after.assets[id].name_spec()] == id by {
            if id != self.next_id() {
                assert(self.assets.contains_key(id));
            }
        }
    }

    /// Removing an asset keeps every remaining asset findable by its name.
    pub proof fn law_remove_keeps_indexed(self, id: usize)
        requires
            self.wf(),
            self.indexed(),
        ensures
            self.remove(id).indexed(),
    {
        let after = self.remove(id);
        if self.assets.contains_key(id) {
            assert forall|id2: usize| #[trigger] after.assets.contains_key(id2) implies 
                after.names.contains_key(after.assets[id2].name_spec())
                    && after.names[after.assets[id2].name_spec()] == id2 by {
                assert(self.assets.contains_key(id2));
                assert(self.assets.contains_key(id));
            }
        }
    }
}

/// A store of assets of one type: handles resolve to assets, names resolve to
/// handles, and the ids of removed assets are handed out again.
pub struct AssetStore<T: Named> {
    values: SparseMap<T>,
    name_to_id: HashMap<String, usize, ahash::RandomState>,
    free_ids: VecDeque<usize>,
}

impl<T: Named> AssetStore<T> {
    /// The abstract state of the store.
    pub closed spec fn view(&self) -> StoreModel<T> {
        StoreModel {
            assets: self.values@,
            names: name_bindings(self.name_to_id),
            free: self.free_ids@,
        }
    }

    /// The live assets in storage order, as `as_slice` hands them out.
    pub closed spec fn dense(&self) -> Seq<T> {
        self.values.dense()
    }

    /// The id of each asset of `dense()`.
    pub closed spec fn dense_ids(&self) -> Seq<usize> {
        self.values.dense_ids()
    }

    /// The place of a live asset in the storage order.
    pub closed spec fn position(&self, id: usize) -> int {
        self.values.position(id)
    }

    /// Validity of the store.
    pub closed spec fn wf(&self) -> bool {
        self.values.wf() && self@.wf()
    }

    /// The storage order lists exactly the live assets, each one once.
    pub proof fn lemma_dense(&self)
        requires
            self.wf(),
        ensures
            self@.wf(),
            self.dense().len() == self@.assets.len(),
            self.dense_ids().len() == self.dense().len(),
            self.dense_ids().no_duplicates(),
            forall|p: int|
                0 <= p < self.dense().len() ==> self@.assets.contains_key(
                    #[trigger] self.dense_ids()[p],
                ) && self@.assets[self.dense_ids()[p]] == self.dense()[p],
            forall|id: usize| #[trigger]
                self@.assets.contains_key(id) ==> self.dense_ids().contains(id) && 0
                    <= self.position(id) < self.dense().len() && self.dense_ids()[self.position(
                    id,
                )] == id,
            forall|p: int|
                0 <= p < self.dense().len() ==> self.position(#[trigger] self.dense_ids()[p]) == p,
    {
        self.values.lemma_dense();
        assert forall|id: usize| #[trigger] self@.assets.contains_key(id) implies self.dense_ids().contains(
            id,
        ) by {
            assert(self.values.dense_ids()[self.values.position(id)] == id);
        }
    }

    /// A store without assets.
    pub fn new() -> (r: Self)
        ensures
            r.wf(),
            r@ == StoreModel::<T>::empty(),
            r.dense().len() == 0,
    {
        let r = Self { values: SparseMap::new(), name_to_id: index_new(), free_ids: VecDeque::new() };
        assert(r@.free =~= Seq::<usize>::empty());
        r
    }

    /// The asset under `id`, or nothing where `id` is not live.
    pub fn get(&self, id: AssetId<T>) -> (r: Option<&T>)
        requires
            self.wf(),
        ensures
            r.is_some() == self@.assets.contains_key(id@),
            r.is_some() ==> *r.unwrap() == self@.assets[id@],
    {
        self.values.get(id.inner)
    }

    /// Mutable access to the asset under `id`.  What the caller leaves behind
    /// the reference is the asset under `id` from then on; the store stays
    /// valid as long as the asset keeps its name.
    pub fn get_mut(&mut self, id: AssetId<T>) -> (r: Option<&mut T>)
        requires
            old(self).wf(),
        ensures
            r.is_some() == old(self)@.assets.contains_key(id@),
            r.is_some() ==> *r.unwrap() == old(self)@.assets[id@],
            r.is_some() ==> final(self)@ == old(self)@.write(id@, *final(r.unwrap())),
            r.is_some() && final(r.unwrap()).name_spec() == r.unwrap().name_spec()
                ==> final(self).wf(),
            r.is_none() ==> final(self).wf() && final(self)@ == old(self)@ && final(self).dense()
                == old(self).dense(),
    {
        proof {
            let before = *self;
            assert forall|after: Self|
                after.values.wf() && before.values@.contains_key(id@) && after.values@
                    == before.values@.insert(id@, after.values@[id@]) && after.name_to_id
                    == before.name_to_id && after.free_ids == before.free_ids
                    && after.values@[id@].name_spec() == before.values@[id@].name_spec() implies 
                #[trigger] after.wf() by {
                before@.lemma_write_wf(id@, after.values@[id@]);
                assert(after@ == before@.write(id@, after.values@[id@]));
            }
        }
        self.values.get_mut(id.inner)
    }

    /// The id that `name` is bound to.
    pub fn get_id(&self, name: &str) -> (r: Option<AssetId<T>>)
        ensures
            r.is_some() == self@.names.contains_key(name@),
            r.is_some() ==> r.unwrap()@ == self@.names[name@],
    {
        match index_get(&self.name_to_id, name) {
            Some(id) => Some(AssetId::new(id)),
            None => None,
        }
    }

    /// Stores `asset` under the oldest vacated id, or under the next dense
    /// index where no id is vacant, and binds the asset's name to that id.
    pub fn insert(&mut self, asset: T) -> (id: AssetId<T>)
        requires
            old(self).wf(),
        ensures
            final(self).wf(),
            id@ == old(self)@.next_id(),
            !old(self)@.assets.contains_key(id@),
            final(self)@ == old(self)@.insert(asset),
            final(self).dense() == old(self).dense().push(asset),
            final(self).dense_ids() == old(self).dense_ids().push(id@),
    {
        proof {
            self.values.lemma_dense();
        }
        let ghost before = self@;
        let live = self.values.len();
        let id = match self.free_ids.pop_front() {
            Some(id) => id,
            None => live,
        };
        proof {
            before.lemma_insert_wf(asset);
            assert(id == before.next_id());
            if before.free.len() > 0 {
                assert(self.free_ids@ =~= before.free.skip(1));
            }
        }
        let name = asset.name().to_owned();
        index_insert(&mut self.name_to_id, name, id);
        self.values.insert(id, asset);
        AssetId::new(id)
    }

    /// Removes the asset under `id` and hands it back: its id becomes vacant
    /// and the binding of its name is dropped.  Nothing happens where `id` is
    /// not live.
    pub fn remove(&mut self, id: AssetId<T>) -> (r: Option<T>)
        requires
            old(self).wf(),
        ensures
            final(self).wf(),
            final(self)@ == old(self)@.remove(id@),
            r == old(self)@.get(id@),
            r.is_none() ==> final(self).dense() == old(self).dense() && final(self).dense_ids()
                == old(self).dense_ids(),
            r.is_some() ==> final(self).dense() == old(self).dense().update(
                old(self).position(id@),
                old(self).dense().last(),
            ).drop_last() && final(self).dense_ids() == old(self).dense_ids().update(
                old(self).position(id@),
                old(self).dense_ids().last(),
            ).drop_last(),
    {
        let ghost before = self@;
        proof {
            before.lemma_remove_wf(id@);
        }
        match self.values.remove(id.inner) {
            Some(item) => {
                index_remove(&mut self.name_to_id, item.name());
                self.free_ids.push_back(id.inner);
                Some(item)
            },
            None => {
                assert(self@.assets =~= before.assets);
                None
            },
        }
    }

    /// The handle of the asset at place `position` of the storage order.
    pub fn id_at(&self, position: usize) -> (id: AssetId<T>)
        requires
            self.wf(),
            position < self.dense().len(),
        ensures
            id@ == self.dense_ids()[position as int],
            self@.assets.contains_key(id@),
            self@.assets[id@] == self.dense()[position as int],
    {
        proof {
            self.lemma_dense();
        }
        AssetId::new(self.values.id_at(position))
    }

    /// The live assets, in storage order.
    pub fn values(&self) -> (r: &[T])
        ensures
            r@ == self.dense(),
    {
        self.values.values()
    }

    /// The live assets, in storage order.
    pub fn as_slice(&self) -> (r: &[T])
        ensures
            r@ == self.dense(),
    {
        self.values.values()
    }

    /// The live assets as a slice that can be written, in storage order.
    /// What the caller leaves in the slice are the assets from then on, each
    /// under the id that it had; the store stays valid as long as every asset
    /// keeps its name.
    pub fn as_mut_slice(&mut self) -> (r: &mut [T])
        requires
            old(self).wf(),
        ensures
            r@ == old(self).dense(),
            final(self).dense() == final(r)@,
            final(self).dense_ids() == old(self).dense_ids(),
            final(self)@.names == old(self)@.names,
            final(self)@.free == old(self)@.free,
            final(self)@.assets.dom() == old(self)@.assets.dom(),
            forall|id: usize|
                old(self)@.assets.contains_key(id) ==> final(self).position(id) == old(self).position(id),
            final(r)@.len() == r@.len() ==> forall|id: usize| #[trigger]
                final(self)@.assets.contains_key(id) ==> final(self)@.assets[id] == final(r)@[old(self).position(id)],
            final(r)@.len() == r@.len() && (forall|p: int|
                0 <= p < r@.len() ==> (#[trigger] final(r)@[p]).name_spec() == r@[p].name_spec())
                ==> final(self).wf(),
    {
        proof {
            let before = *self;
            before.lemma_dense();
            assert forall|after: Self|
                after.values.wf() && after.name_to_id == before.name_to_id && after.free_ids
                    == before.free_ids && after.values.dense().len() == before.values.dense().len()
                    && after.values.dense_ids() == before.values.dense_ids() && (forall|i: usize|
                    after.values.contains(i) == before.values.contains(i)) && (forall|i: usize|
                    before.values.contains(i) ==> after.values.position(i)
                        == before.values.position(i)) && (forall|p: int|
                    0 <= p < before.values.dense().len() ==> (
                    #[trigger] after.values.dense()[p]).name_spec()
                        == before.values.dense()[p].name_spec()) implies #[trigger] after.wf() by {
                assert(after@.assets.dom() =~= before@.assets.dom());
                assert forall|name: Seq<char>| #[trigger] after@.names.contains_key(name) implies 
                    after@.assets.contains_key(after@.names[name])
                        && after@.assets[after@.names[name]].name_spec() == name by {
                    assert(before@.names.contains_key(name));
                    let id = before@.names[name];
                    assert(before.values.contains(id));
                    let p = before.values.position(id);
                    assert(after.values.dense()[p].name_spec() == before.values.dense()[p].name_spec());
                }
            }
        }
        proof {
            let before = *self;
            assert forall|after: Self|
                (forall|i: usize| after.values.contains(i) == before.values.contains(i)) implies (
            #[trigger] after@).assets.dom() == before@.assets.dom() by {
                assert(after@.assets.dom() =~= before@.assets.dom());
            }
        }
        self.values.values_mut()
    }

    /// The live assets as a slice that can be written, in storage order.
    pub fn values_mut(&mut self) -> (r: &mut [T])
        requires
            old(self).wf(),
        ensures
            r@ == old(self).dense(),
            final(self).dense() == final(r)@,
            final(self).dense_ids() == old(self).dense_ids(),
            final(self)@.names == old(self)@.names,
            final(self)@.free == old(self)@.free,
            final(self)@.assets.dom() == old(self)@.assets.dom(),
            final(r)@.len() == r@.len() && (forall|p: int|
                0 <= p < r@.len() ==> (#[trigger] final(r)@[p]).name_spec() == r@[p].name_spec())
                ==> final(self).wf(),
    {
        self.as_mut_slice()
    }

    /// The number of live assets.
    pub fn len(&self) -> (n: usize)
        ensures
            n == self.dense().len(),
    {
        self.values.len()
    }

    /// Forgets every asset, every name and every vacated id.
    pub fn clear(&mut self)
        ensures
            final(self).wf(),
            final(self)@ == StoreModel::<T>::empty(),
            final(self).dense().len() == 0,
    {
        self.values.clear();
        index_clear(&mut self.name_to_id);
        self.free_ids.clear();
        assert(self@.free =~= Seq::<usize>::empty());
    }

    /// Whether `name` is bound to an id.
    pub fn contains_name(&self, name: &str) -> (r: bool)
        ensures
            r == self@.names.contains_key(name@),
    {
        index_contains(&self.name_to_id, name)
    }
}

/// What a loader read of a file: the meshes, each with the place of its
/// texture among the textures, and the textures.
pub struct Obj<V, P, B, C> {
    pub meshes: Vec<(Mesh<V, P, B, Texture<C>>, Option<usize>)>,
    pub textures: Vec<Texture<C>>,
}

/// The texture store after each of `textures` was looked up by its name and,
/// where the name was not bound, inserted; and the id that each one was found
/// or stored under.
pub open spec fn textures_added<C>(store: StoreModel<Texture<C>>, textures: Seq<Texture<C>>) -> (
    StoreModel<Texture<C>>,
    Seq<usize>,
)
    decreases textures.len(),
{
    if textures.len() == 0 {
        (store, Seq::empty())
    } else {
        let (before, ids) = textures_added(store, textures.drop_last());
        let texture = textures.last();
        if before.names.contains_key(texture.name_spec()) {
            (before, ids.push(before.names[texture.name_spec()]))
        } else {
            (before.insert(texture), ids.push(before.next_id()))
        }
    }
}

/// The texture of a loaded mesh: the id of the texture at the place that the
/// mesh names, if it names one that there is.
pub open spec fn texture_of<C>(texture_ids: Seq<usize>, place: Option<usize>) -> Option<
    AssetId<Texture<C>>,
> {
    match place {
        Some(i) => if i < texture_ids.len() {
            Some(AssetId::spec_new(texture_ids[i as int]))
        } else {
            None
        },
        None => None,
    }
}

/// The mesh store after each of `meshes` whose name was not bound was given
/// its texture and inserted, and the ids of those that were inserted.
pub open spec fn meshes_added<V, P, B, C>(
    store: StoreModel<Mesh<V, P, B, Texture<C>>>,
    meshes: Seq<(Mesh<V, P, B, Texture<C>>, Option<usize>)>,
    texture_ids: Seq<usize>,
) -> (StoreModel<Mesh<V, P, B, Texture<C>>>, Seq<usize>)
    decreases meshes.len(),
{
    if meshes.len() == 0 {
        (store, Seq::empty())
    } else {
        let (before, ids) = meshes_added(store, meshes.drop_last(), texture_ids);
        let (mesh, place) = meshes.last();
        if before.names.contains_key(mesh.name_spec()) {
            (before, ids)
        } else {
            (
                before.insert(Mesh { texture_id: texture_of(texture_ids, place), ..mesh }),
                ids.push(before.next_id()),
            )
        }
    }
}

/// The mesh store `after` is the store `mid` with one placement spawned in
/// the mesh `mesh_id`, under the id `id`.
pub open spec fn is_spawned_in<V, P, B: Copy, X, F: Fn(&V) -> P, G: Fn(&B) -> B>(
    place: &F,
    bound: &G,
    mid: StoreModel<Mesh<V, P, B, X>>,
    mesh_id: usize,
    after: StoreModel<Mesh<V, P, B, X>>,
    id: usize,
) -> bool {
    &&& mid.assets.contains_key(mesh_id)
    &&& after.assets.contains_key(mesh_id)
    &&& after == mid.write(mesh_id, after.assets[mesh_id])
    &&& mid.assets[mesh_id].is_spawned(&after.assets[mesh_id], id, place, bound)
}

/// The mesh store `after` is the store `before` with one placement spawned
/// in each of the meshes `mesh_ids`, one after the other, and `ids` are the
/// ids of these placements.
pub open spec fn is_spawned_in_all<V, P, B: Copy, X, F: Fn(&V) -> P, G: Fn(&B) -> B>(
    place: &F,
    bound: &G,
    before: StoreModel<Mesh<V, P, B, X>>,
    mesh_ids: Seq<usize>,
    after: StoreModel<Mesh<V, P, B, X>>,
    ids: Seq<usize>,
) -> bool
    decreases mesh_ids.len(),
{
    if mesh_ids.len() == 0 {
        after == before && ids.len() == 0
    } else {
        &&& ids.len() == mesh_ids.len()
        &&& exists|mid: StoreModel<Mesh<V, P, B, X>>|
            is_spawned_in_all(place, bound, before, mesh_ids.drop_last(), mid, ids.drop_last())
                && #[trigger] is_spawned_in(place, bound, mid, mesh_ids.last(), after, ids.last())
    }
}

/// The models, the meshes and the textures of a scene.
pub struct AssetManager<V, P, B, C> {
    pub models: AssetStore<Model<Mesh<V, P, B, Texture<C>>>>,
    pub meshes: AssetStore<Mesh<V, P, B, Texture<C>>>,
    pub textures: AssetStore<Texture<C>>,
}

impl<V, P, B: Copy, C> AssetManager<V, P, B, C> {
    /// The three stores are valid, and so is every mesh and every model in
    /// them.
    pub open spec fn wf(&self) -> bool {
        &&& self.models.wf()
        &&& self.meshes.wf()
        &&& self.textures.wf()
        &&& forall|id: usize| #[trigger]
            self.meshes@.assets.contains_key(id) ==> self.meshes@.assets[id].wf()
        &&& forall|id: usize| #[trigger]
            self.models@.assets.contains_key(id) ==> self.models@.assets[id].wf()
    }

    /// Three empty stores.
    pub fn new() -> (r: Self)
        ensures
            r.wf(),
            r.models@ == StoreModel::<Model<Mesh<V, P, B, Texture<C>>>>::empty(),
            r.meshes@ == StoreModel::<Mesh<V, P, B, Texture<C>>>::empty(),
            r.textures@ == StoreModel::<Texture<C>>::empty(),
    {
        Self { models: AssetStore::new(), meshes: AssetStore::new(), textures: AssetStore::new() }
    }

    /// Places the mesh `mesh_id` in the world and hands back the id of the
    /// placement.
    pub fn spawn_mesh_instance<F: Fn(&V) -> P, G: Fn(&B) -> B>(
        &mut self,
        mesh_id: AssetId<Mesh<V, P, B, Texture<C>>>,
        place: &F,
        bound: &G,
    ) -> (id: AssetId<MeshInstance<P, B>>)
        requires
            old(self).wf(),
            old(self).meshes@.assets.contains_key(mesh_id@),
            forall|v: &V| call_requires(*place, (v,)),
            forall|b: &B| call_requires(*bound, (b,)),
        ensures
            final(self).wf(),
            final(self).models@ == old(self).models@,
            final(self).textures@ == old(self).textures@,
            final(self).meshes@.assets.contains_key(mesh_id@),
            final(self).meshes@ == old(self).meshes@.write(
                mesh_id@,
                final(self).meshes@.assets[mesh_id@],
            ),
            old(self).meshes@.assets[mesh_id@].is_spawned(
                &final(self).meshes@.assets[mesh_id@],
                id@,
                place,
                bound,
            ),
    {
        let mesh = self.meshes.get_mut(mesh_id).unwrap();
        let instance_id = mesh.spawn_instance(place, bound);
        AssetId::new(instance_id)
    }

    /// Places the model `model_id` in the world: spawns a placement of each
    /// of its meshes, in their order, and records them as one placement of
    /// the model, under the id that was vacated first or the next index.
    pub fn spawn_model_instance<F: Fn(&V) -> P, G: Fn(&B) -> B>(
        &mut self,
        model_id: AssetId<Model<Mesh<V, P, B, Texture<C>>>>,
        place: &F,
        bound: &G,
    ) -> (id: AssetId<ModelInstance>)
        requires
            old(self).wf(),
            old(self).models@.assets.contains_key(model_id@),
            forall|k: int|
                0 <= k < old(self).models@.assets[model_id@].mesh_ids@.len() ==> old(self).meshes@.assets.contains_key(
                    #[trigger] old(self).models@.assets[model_id@].mesh_ids@[k]@,
                ),
            forall|v: &V| call_requires(*place, (v,)),
            forall|b: &B| call_requires(*bound, (b,)),
        ensures
            final(self).wf(),
            final(self).textures@ == old(self).textures@,
            final(self).models@.assets.contains_key(model_id@),
            final(self).models@ == old(self).models@.write(
                model_id@,
                final(self).models@.assets[model_id@],
            ),
            ({
                let before = old(self).models@.assets[model_id@];
                let after = final(self).models@.assets[model_id@];
                &&& after.name == before.name
                &&& after.mesh_ids == before.mesh_ids
                &&& id@ == crate::id_pool::next_id(before.instances@.dom(), before.free_ids@)
                &&& after.free_ids@ == free_after_take(before.free_ids@)
                &&& after.instances@.contains_key(id@)
                &&& after.instances@ == before.instances@.insert(id@, after.instances@[id@])
                &&& is_spawned_in_all(
                    place,
                    bound,
                    old(self).meshes@,
                    before.mesh_indices(),
                    final(self).meshes@,
                    after.instances@[id@].mesh_instance_ids@,
                )
            }),
    {
        let model = self.models.get(model_id).unwrap();
        let count = model.mesh_ids.len();
        let ghost mesh_ids = model.mesh_indices();
        let mut mesh_instance_ids: Vec<usize> = Vec::new();
        let mut k: usize = 0;
        while k < count
            invariant
                k <= count,
                count == model.mesh_ids@.len(),
                mesh_ids == model.mesh_indices(),
                *model == old(self).models@.assets[model_id@],
                self.models == old(self).models,
                self.textures == old(self).textures,
                self.meshes.wf(),
                forall|id: usize| #[trigger]
                    self.meshes@.assets.contains_key(id) ==> self.meshes@.assets[id].wf(),
                forall|j: int|
                    0 <= j < count ==> self.meshes@.assets.contains_key(#[trigger] mesh_ids[j]),
                forall|v: &V| call_requires(*place, (v,)),
                forall|b: &B| call_requires(*bound, (b,)),
                mesh_instance_ids@.len() == k,
                is_spawned_in_all(
                    place,
                    bound,
                    old(self).meshes@,
                    mesh_ids.take(k as int),
                    self.meshes@,
                    mesh_instance_ids@,
                ),
            decreases count - k,
        {
            let mesh_id = model.mesh_ids[k];
            let ghost mid = self.meshes@;
            let ghost done = mesh_instance_ids@;
            assert(mesh_ids[k as int] == mesh_id@);
            let mesh = self.meshes.get_mut(mesh_id).unwrap();
            let instance_id = mesh.spawn_instance(place, bound);
            mesh_instance_ids.push(instance_id);
            proof {
                let taken = mesh_ids.take(k as int + 1);
                assert(taken.drop_last() =~= mesh_ids.take(k as int));
                assert(taken.last() == mesh_id@);
                assert(mesh_instance_ids@.drop_last() =~= done);
                assert(self.meshes@.assets.dom() =~= mid.assets.dom());
                assert(is_spawned_in_all(
                    place,
                    bound,
                    old(self).meshes@,
                    taken.drop_last(),
                    mid,
                    mesh_instance_ids@.drop_last(),
                ));
                let after = self.meshes@;
                assert(mesh_instance_ids@.last() == instance_id);
                assert(is_spawned_in(
                    place,
                    bound,
                    mid,
                    taken.last(),
                    after,
                    mesh_instance_ids@.last(),
                ));
                assert(is_spawned_in_all(
                    place,
                    bound,
                    old(self).meshes@,
                    taken,
                    after,
                    mesh_instance_ids@,
                ));
            }
            k += 1;
        }
        proof {
            assert(mesh_ids.take(count as int) =~= mesh_ids);
        }
        let model = self.models.get_mut(model_id).unwrap();
        let live = model.instances.len();
        proof {
            model.instances.lemma_dense();
            lemma_pool_take(model.instances@.dom(), model.free_ids@);
        }
        let ghost before = *model;
        let model_instance_id = match model.free_ids.pop_front() {
            Some(id) => id,
            None => live,
        };
        proof {
            if before.free_ids@.len() > 0 {
                assert(model.free_ids@ =~= before.free_ids@.skip(1));
            }
        }
        model.instances.insert(model_instance_id, ModelInstance { mesh_instance_ids });
        proof {
            assert(model.instances@.dom() =~= before.instances@.dom().insert(model_instance_id));
        }
        AssetId::new(model_instance_id)
    }
}

impl<V, P, B: Copy, C> AssetManager<V, P, B, C> {
    /// Takes what a loader read into the stores and registers it as a model
    /// called `name`.  A texture whose name is bound already is not stored
    /// again: the texture of that name is used in its place.  A mesh whose
    /// name is bound already is left out.  Every other mesh gets the texture
    /// at the place that it names, is stored, and becomes a mesh of the
    /// model.
    pub fn model_from_obj(&mut self, obj: Obj<V, P, B, C>, name: String) -> (id: AssetId<
        Model<Mesh<V, P, B, Texture<C>>>,
    >)
        requires
            old(self).wf(),
            forall|j: int| 0 <= j < obj.meshes@.len() ==> (#[trigger] obj.meshes@[j]).0.wf(),
        ensures
            final(self).wf(),
            final(self).textures@ == textures_added(old(self).textures@, obj.textures@).0,
            final(self).meshes@ == meshes_added(
                old(self).meshes@,
                obj.meshes@,
                textures_added(old(self).textures@, obj.textures@).1,
            ).0,
            id@ == old(self).models@.next_id(),
            final(self).models@.assets.contains_key(id@),
            final(self).models@ == old(self).models@.insert(final(self).models@.assets[id@]),
            final(self).models@.assets[id@].name == name,
            final(self).models@.assets[id@].mesh_indices() == meshes_added(
                old(self).meshes@,
                obj.meshes@,
                textures_added(old(self).textures@, obj.textures@).1,
            ).1,
            final(self).models@.assets[id@].instances@ == Map::<usize, ModelInstance>::empty(),
    {
        let ghost textures = obj.textures@;
        let ghost meshes = obj.meshes@;
        let mut texture_ids: Vec<usize> = Vec::new();
        for texture in it: obj.textures
            invariant
                it.seq() == textures,
                self.textures.wf(),
                self.models == old(self).models,
                self.meshes == old(self).meshes,
                (self.textures@, texture_ids@) == textures_added(
                    old(self).textures@,
                    textures.take(it.index()),
                ),
        {
            proof {
                let taken = textures.take(it.index() + 1);
                assert(taken.drop_last() =~= textures.take(it.index()));
                assert(taken.last() == texture);
            }
            match self.textures.get_id(texture.name()) {
                Some(id) => {
                    texture_ids.push(id.index());
                },
                None => {
                    let id = self.textures.insert(texture);
                    texture_ids.push(id.index());
                },
            }
        }
        proof {
            assert(textures.take(textures.len() as int) =~= textures);
        }
        let ghost bound_textures = texture_ids@;
        let mut mesh_ids: Vec<AssetId<Mesh<V, P, B, Texture<C>>>> = Vec::new();
        for entry in it: obj.meshes
            invariant
                it.seq() == meshes,
                forall|j: int| 0 <= j < meshes.len() ==> (#[trigger] meshes[j]).0.wf(),
                self.meshes.wf(),
                self.models == old(self).models,
                self.textures@ == textures_added(old(self).textures@, textures).0,
                self.textures.wf(),
                texture_ids@ == bound_textures,
                forall|id: usize| #[trigger]
                    self.meshes@.assets.contains_key(id) ==> self.meshes@.assets[id].wf(),
                (self.meshes@, Seq::new(mesh_ids@.len(), |k: int| mesh_ids@[k]@)) == meshes_added(
                    old(self).meshes@,
                    meshes.take(it.index()),
                    bound_textures,
                ),
        {
            let ghost stored = Seq::new(mesh_ids@.len(), |k: int| mesh_ids@[k]@);
            proof {
                let taken = meshes.take(it.index() + 1);
                assert(taken.drop_last() =~= meshes.take(it.index()));
                assert(taken.last() == entry);
            }
            let (mesh, place) = entry;
            let mut mesh = mesh;
            if !self.meshes.contains_name(mesh.name()) {
                mesh.texture_id = match place {
                    Some(i) => if i < texture_ids.len() {
                        Some(AssetId::new(texture_ids[i]))
                    } else {
                        None
                    },
                    None => None,
                };
                let id = self.meshes.insert(mesh);
                mesh_ids.push(id);
                proof {
                    assert(Seq::new(mesh_ids@.len(), |k: int| mesh_ids@[k]@) =~= stored.push(id@));
                }
            }
        }
        proof {
            assert(meshes.take(meshes.len() as int) =~= meshes);
        }
        let ghost stored = Seq::new(mesh_ids@.len(), |k: int| mesh_ids@[k]@);
        let model = Model::new(name, mesh_ids);
        assert(model.mesh_indices() =~= stored);
        self.models.insert(model)
    }
}

} // verus!
