//! A sparse map from small integer ids to values, stored densely.
//!
//! Values live contiguously in one vector so that they can be handed out as a
//! slice; a second vector remembers which id owns each position and a third
//! maps every id to its position.  Removal moves the last value into the hole.

use vstd::prelude::*;

verus! {

/// A map from ids to values that keeps the values without holes.
pub struct SparseMap<T> {
    /// Position of each id in `values`, if the id is present.
    slots: Vec<Option<usize>>,
    /// Id that owns each position of `values`.
    ids: Vec<usize>,
    /// The stored values, without holes.
    values: Vec<T>,
}

impl<T> SparseMap<T> {
    /// The representation invariant: `slots` and `ids` are inverse to each
    /// other and every position holds a value.
    pub closed spec fn wf(&self) -> bool {
        &&& self.ids@.len() == self.values@.len()
        &&& self@.dom().finite()
        &&& self@.dom().len() == self.values@.len()
        &&& forall|p: int|
            0 <= p < self.ids@.len() ==> (#[trigger] self.ids@[p]) < self.slots@.len()
                && self.slots@[self.ids@[p] as int].is_some()
                && self.slots@[self.ids@[p] as int].unwrap() as int == p
        &&& forall|id: int|
            0 <= id < self.slots@.len() ==> match #[trigger] self.slots@[id] {
                Some(p) => p < self.ids@.len() && self.ids@[p as int] == id,
                None => true,
            }
    }

    /// Whether `id` is bound to a value.
    pub closed spec fn contains(&self, id: usize) -> bool {
        id < self.slots@.len() && self.slots@[id as int].is_some()
    }

    /// Position of a present id in the dense storage.
    pub closed spec fn position(&self, id: usize) -> int {
        self.slots@[id as int].unwrap() as int
    }

    /// The values in storage order.
    pub closed spec fn dense(&self) -> Seq<T> {
        self.values@
    }

    /// The id that owns each position of `dense()`.
    pub closed spec fn dense_ids(&self) -> Seq<usize> {
        self.ids@
    }

    /// The map as a mathematical map from ids to values.
    pub open spec fn view(&self) -> Map<usize, T> {
        Map::new(|id: usize| self.contains(id), |id: usize| self.dense()[self.position(id)])
    }

    /// How the dense storage and the id bindings of a well-formed map relate:
    /// positions and present ids correspond one to one.
    pub proof fn lemma_dense(&self)
        requires
            self.wf(),
        ensures
            self.dense_ids().len() == self.dense().len(),
            self@.dom().finite(),
            self@.len() == self.dense().len(),
            forall|p: int|
                0 <= p < self.dense().len() ==> self.contains(#[trigger] self.dense_ids()[p])
                    && self.position(self.dense_ids()[p]) == p,
            forall|id: usize|
                self.contains(id) ==> 0 <= #[trigger] self.position(id) < self.dense().len()
                    && self.dense_ids()[self.position(id)] == id,
            self.dense_ids().no_duplicates(),
    {
        assert forall|id: usize| self.contains(id) implies 0 <= #[trigger] self.position(id)
            < self.dense().len() && self.dense_ids()[self.position(id)] == id by {
            let _ = self.slots@[id as int];
        }
        assert forall|p: int, q: int|
            0 <= p < self.ids@.len() && 0 <= q < self.ids@.len() && p != q implies self.ids@[p]
            != self.ids@[q] by {
            assert(self.slots@[self.ids@[p] as int].unwrap() as int == p);
            assert(self.slots@[self.ids@[q] as int].unwrap() as int == q);
        }
    }

    /// Overwriting the value of a present id leaves the map well formed and
    /// changes its view at that id alone.
    proof fn lemma_write(&self, after: &Self, id: usize)
        requires
            self.wf(),
            self.contains(id),
            after.slots == self.slots,
            after.ids == self.ids,
            after.values@ == self.values@.update(self.position(id), after.values@[self.position(id)]),
        ensures
            after.wf(),
            after@ == self@.insert(id, after.values@[self.position(id)]),
    {
        assert(after@ =~= self@.insert(id, after.values@[self.position(id)])) by {
            assert forall|i: usize| after@.contains_key(i) implies after@[i] == self@.insert(
                id,
                after.values@[self.position(id)],
            )[i] by {
                let _ = self.slots@[i as int];
            }
        }
    }

    /// An empty map.
    pub fn new() -> (r: Self)
        ensures
            r.wf(),
            r@ == Map::<usize, T>::empty(),
            r.dense() == Seq::<T>::empty(),
            r.dense_ids() == Seq::<usize>::empty(),
            forall|id: usize| !r.contains(id),
    {
        let r = SparseMap { slots: Vec::new(), ids: Vec::new(), values: Vec::new() };
        assert(r@ =~= Map::<usize, T>::empty());
        r
    }

    /// Number of values stored.
    pub fn len(&self) -> (n: usize)
        ensures
            n == self.dense().len(),
    {
        self.values.len()
    }

    /// Whether `id` is bound.
    pub fn contains_id(&self, id: usize) -> (r: bool)
        ensures
            r == self.contains(id),
    {
        id < self.slots.len() && self.slots[id].is_some()
    }

    /// The value bound to `id`, if any.
    pub fn get(&self, id: usize) -> (r: Option<&T>)
        requires
            self.wf(),
        ensures
            r == (if self.contains(id) {
                Some(&self@[id])
            } else {
                None
            }),
    {
        if id < self.slots.len() {
            match self.slots[id] {
                Some(p) => Some(&self.values[p]),
                None => None,
            }
        } else {
            None
        }
    }

    /// Mutable access to the value bound to `id`, if any.  Whatever the caller
    /// writes through the reference becomes the value bound to `id`; nothing
    /// else changes.
    pub fn get_mut(&mut self, id: usize) -> (r: Option<&mut T>)
        requires
            old(self).wf(),
        ensures
            final(self).wf(),
            r.is_some() == old(self).contains(id),
            final(self).dense_ids() == old(self).dense_ids(),
            forall|i: usize| final(self).contains(i) == old(self).contains(i),
            forall|i: usize|
                old(self).contains(i) ==> final(self).position(i) == old(self).position(i),
            match r {
                Some(v) => *v == old(self)@[id] && final(self).dense() == old(self).dense().update(
                    old(self).position(id),
                    *final(v),
                ) && final(self)@ == old(self)@.insert(id, *final(v)),
                None => final(self).dense() == old(self).dense() && final(self)@ == old(self)@,
            },
    {
        if id < self.slots.len() {
            match self.slots[id] {
                Some(p) => {
                    proof {
                        let before = *self;
                        assert forall|after: Self|
                            after.slots == before.slots && after.ids == before.ids
                                && after.values@ == before.values@.update(
                                p as int,
                                after.values@[p as int],
                            ) implies #[trigger] after.wf() && after@ == before@.insert(
                            id,
                            after.values@[p as int],
                        ) by {
                            before.lemma_write(&after, id);
                        }
                    }
                    let v = &mut self.values[p];
                    Some(v)
                },
                None => None,
            }
        } else {
            None
        }
    }

    /// Binds `id` to `value`.  A fresh id is appended to the dense storage; a
    /// present id keeps its position and the value it had is returned.
    pub fn insert(&mut self, id: usize, value: T) -> (r: Option<T>)
        requires
            old(self).wf(),
        ensures
            final(self).wf(),
            final(self)@ == old(self)@.insert(id, value),
            forall|i: usize| final(self).contains(i) == (i == id || old(self).contains(i)),
            forall|i: usize|
                old(self).contains(i) ==> final(self).position(i) == old(self).position(i),
            old(self).contains(id) ==> r == Some(old(self)@[id]) && final(self).dense_ids() == old(
                self,
            ).dense_ids() && final(self).dense() == old(self).dense().update(
                old(self).position(id),
                value,
            ),
            !old(self).contains(id) ==> r.is_none() && final(self).dense_ids() == old(
                self,
            ).dense_ids().push(id) && final(self).dense() == old(self).dense().push(value)
                && final(self).position(id) == old(self).dense().len(),
    {
        let ghost before = *self;
        while self.slots.len() <= id
            invariant
                self.wf(),
                self@ == before@,
                self.ids == before.ids,
                self.values == before.values,
                self.slots@.len() >= before.slots@.len(),
                forall|i: int| 0 <= i < before.slots@.len() ==> self.slots@[i] == before.slots@[i],
                forall|i: int|
                    before.slots@.len() <= i < self.slots@.len() ==> self.slots@[i].is_none(),
            decreases id + 1 - self.slots@.len(),
        {
            self.slots.push(None);
            assert(self@ =~= before@);
        }
        let ghost grown = *self;
        match self.slots[id] {
            Some(p) => {
                let mut value = value;
                std::mem::swap(&mut self.values[p], &mut value);
                proof {
                    assert(self@ =~= before@.insert(id, self.values@[p as int])) by {
                        assert forall|i: usize| self@.contains_key(i) implies self@[i]
                            == before@.insert(id, self.values@[p as int])[i] by {
                            let _ = before.slots@[i as int];
                        }
                    }
                }
                Some(value)
            },
            None => {
                let p = self.values.len();
                self.values.push(value);
                self.ids.push(id);
                self.slots[id] = Some(p);
                proof {
                    assert(self@ =~= before@.insert(id, value)) by {
                        assert forall|i: usize| self@.contains_key(i) implies self@[i]
                            == before@.insert(id, value)[i] by {
                            if i != id {
                                let _ = grown.slots@[i as int];
                            }
                        }
                    }
                    assert(!before@.contains_key(id));
                    assert(self.wf()) by {
                        assert forall|q: int| 0 <= q < self.ids@.len() implies (
                        #[trigger] self.ids@[q]) < self.slots@.len() && self.slots@[self.ids@[q] as int].is_some()
                            && self.slots@[self.ids@[q] as int].unwrap() as int == q by {
                            if q < p {
                                let _ = grown.ids@[q];
                            }
                        }
                        assert forall|i: int| 0 <= i < self.slots@.len() implies match #[trigger] self.slots@[i] {
                            Some(q) => q < self.ids@.len() && self.ids@[q as int] == i,
                            None => true,
                        } by {
                            if i != id {
                                let _ = grown.slots@[i];
                            }
                        }
                    }
                }
                None
            },
        }
    }

    /// Unbinds `id` and returns its value.  The last value of the dense
    /// storage takes the vacated position.
    pub fn remove(&mut self, id: usize) -> (r: Option<T>)
        requires
            old(self).wf(),
        ensures
            final(self).wf(),
            final(self)@ == old(self)@.remove(id),
            forall|i: usize| final(self).contains(i) == (i != id && old(self).contains(i)),
            old(self).contains(id) ==> r == Some(old(self)@[id]) && final(self).dense() == old(
                self,
            ).dense().update(old(self).position(id), old(self).dense().last()).drop_last()
                && final(self).dense_ids() == old(self).dense_ids().update(
                old(self).position(id),
                old(self).dense_ids().last(),
            ).drop_last(),
            !old(self).contains(id) ==> r.is_none() && final(self).dense() == old(self).dense()
                && final(self).dense_ids() == old(self).dense_ids() && forall|i: usize|
                old(self).contains(i) ==> final(self).position(i) == old(self).position(i),
    {
        let ghost before = *self;
        if id >= self.slots.len() {
            assert(self@ =~= before@.remove(id));
            return None;
        }
        match self.slots[id] {
            None => {
                assert(self@ =~= before@.remove(id));
                None
            },
            Some(p) => {
                let last = self.ids.len() - 1;
                let moved = self.ids[last];
                let value = self.values.swap_remove(p);
                let _ = self.ids.swap_remove(p);
                self.slots[moved] = Some(p);
                self.slots[id] = None;
                proof {
                    assert(self@ =~= before@.remove(id)) by {
                        assert forall|i: usize| self@.contains_key(i) implies self@[i]
                            == before@.remove(id)[i] by {
                            let _ = before.slots@[i as int];
                            let _ = before.ids@[last as int];
                        }
                    }
                    assert(before@.contains_key(id));
                    assert(self.wf()) by {
                        assert forall|q: int| 0 <= q < self.ids@.len() implies (
                        #[trigger] self.ids@[q]) < self.slots@.len() && self.slots@[self.ids@[q] as int].is_some()
                            && self.slots@[self.ids@[q] as int].unwrap() as int == q by {
                            let _ = before.ids@[q];
                            let _ = before.ids@[last as int];
                        }
                        assert forall|i: int| 0 <= i < self.slots@.len() implies match #[trigger] self.slots@[i] {
                            Some(q) => q < self.ids@.len() && self.ids@[q as int] == i,
                            None => true,
                        } by {
                            let _ = before.slots@[i];
                            let _ = before.ids@[last as int];
                        }
                    }
                }
                Some(value)
            },
        }
    }

    /// The id that owns position `p` of the dense storage.
    pub fn id_at(&self, p: usize) -> (id: usize)
        requires
            self.wf(),
            p < self.dense().len(),
        ensures
            id == self.dense_ids()[p as int],
            self.contains(id),
            self.position(id) == p,
    {
        self.ids[p]
    }

    /// The stored values as a slice, in storage order.
    pub fn values(&self) -> (r: &[T])
        ensures
            r@ == self.dense(),
    {
        self.values.as_slice()
    }

    /// The stored values as a slice that can be written, in storage order.
    /// What the caller leaves in the slice are the values from then on; the
    /// ids keep their places.
    pub fn values_mut(&mut self) -> (r: &mut [T])
        requires
            old(self).wf(),
        ensures
            r@ == old(self).dense(),
            final(self).dense() == final(r)@,
            final(self).dense_ids() == old(self).dense_ids(),
            forall|i: usize| final(self).contains(i) == old(self).contains(i),
            forall|i: usize|
                old(self).contains(i) ==> final(self).position(i) == old(self).position(i),
            final(r)@.len() == r@.len() ==> final(self).wf(),
    {
        proof {
            let before = *self;
            assert forall|after: Self|
                after.slots == before.slots && after.ids == before.ids && after.values@.len()
                    == before.values@.len() implies #[trigger] after.wf() by {
                assert(after@.dom() =~= before@.dom());
            }
        }
        self.values.as_mut_slice()
    }

    /// Removes every binding.
    pub fn clear(&mut self)
        ensures
            final(self).wf(),
            final(self)@ == Map::<usize, T>::empty(),
            final(self).dense() == Seq::<T>::empty(),
            final(self).dense_ids() == Seq::<usize>::empty(),
            forall|id: usize| !final(self).contains(id),
    {
        self.slots.clear();
        self.ids.clear();
        self.values.clear();
        assert(self@ =~= Map::<usize, T>::empty());
    }
}

} // verus!
