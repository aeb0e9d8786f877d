//! How ids are handed out: densely from zero, and again after they were
//! given back, the one that was given back first coming first.

use vstd::prelude::*;

verus! {

/// The ids in use and the ids given back make up the first
/// `live.len() + free.len()` indices: each of these is either in use or given
/// back, never both, and none was given back twice.
pub open spec fn is_id_pool(live: Set<usize>, free: Seq<usize>) -> bool {
    &&& live.finite()
    &&& free.no_duplicates()
    &&& forall|i: int| 0 <= i < free.len() ==> !live.contains(#[trigger] free[i])
    &&& forall|id: usize|
        (#[trigger] live.contains(id) || free.contains(id)) ==> id < live.len() + free.len()
    &&& forall|id: usize|
        id < live.len() + free.len() ==> #[trigger] live.contains(id) || free.contains(id)
}

/// The id that is handed out next: the one that was given back first, or the
/// next index where none is waiting.
pub open spec fn next_id(live: Set<usize>, free: Seq<usize>) -> usize {
    if free.len() > 0 {
        free[0]
    } else {
        live.len() as usize
    }
}

/// The ids given back, after one was handed out.
pub open spec fn free_after_take(free: Seq<usize>) -> Seq<usize> {
    if free.len() > 0 {
        free.skip(1)
    } else {
        free
    }
}

/// The id handed out next is not in use, and handing it out leaves a pool.
pub proof fn lemma_pool_take(live: Set<usize>, free: Seq<usize>)
    requires
        is_id_pool(live, free),
        live.len() <= usize::MAX,
    ensures
        !live.contains(next_id(live, free)),
        is_id_pool(live.insert(next_id(live, free)), free_after_take(free)),
{
    let id = next_id(live, free);
    let live2 = live.insert(id);
    let free2 = free_after_take(free);
    if free.len() > 0 {
        assert(free[0] == id);
        assert forall|i: usize| free.contains(i) && i != id implies free2.contains(i) by {
            let k = choose|k: int| 0 <= k < free.len() && free[k] == i;
            assert(free2[k - 1] == i);
        }
        assert forall|i: usize| free2.contains(i) implies free.contains(i) && i != id by {
            let k = choose|k: int| 0 <= k < free2.len() && free2[k] == i;
            assert(free[k + 1] == i);
        }
        assert forall|i: int| 0 <= i < free2.len() implies !live2.contains(#[trigger] free2[i]) by {
            assert(free2[i] == free[i + 1]);
        }
        assert forall|id2: usize| id2 < live2.len() + free2.len() implies #[trigger] live2.contains(
            id2,
        ) || free2.contains(id2) by {
            assert(live.contains(id2) || free.contains(id2));
        }
    } else {
        if live.contains(id) {
            assert(id < live.len() + free.len());
        }
        assert forall|id2: usize| id2 < live2.len() + free2.len() implies #[trigger] live2.contains(
            id2,
        ) || free2.contains(id2) by {
            if id2 != id {
                assert(live.contains(id2) || free.contains(id2));
            }
        }
    }
}

/// Giving back an id that is in use leaves a pool.
pub proof fn lemma_pool_release(live: Set<usize>, free: Seq<usize>, id: usize)
    requires
        is_id_pool(live, free),
        live.contains(id),
    ensures
        is_id_pool(live.remove(id), free.push(id)),
{
    let live2 = live.remove(id);
    let free2 = free.push(id);
    assert(!free.contains(id));
    assert forall|i: usize| free2.contains(i) implies free.contains(i) || i == id by {
        let k = choose|k: int| 0 <= k < free2.len() && free2[k] == i;
        if k < free.len() {
            assert(free[k] == i);
        }
    }
    assert forall|i: usize| free.contains(i) || i == id implies free2.contains(i) by {
        if i == id {
            assert(free2[free.len() as int] == i);
        } else {
            let k = choose|k: int| 0 <= k < free.len() && free[k] == i;
            assert(free2[k] == i);
        }
    }
    assert forall|id2: usize| id2 < live2.len() + free2.len() implies #[trigger] live2.contains(
        id2,
    ) || free2.contains(id2) by {
        assert(live.contains(id2) || free.contains(id2));
    }
}

} // verus!
