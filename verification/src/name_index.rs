//! The name index of an asset store: a hash map from asset names to ids,
//! hashed with `ahash`.
//!
//! Verus has no model of a `HashMap` keyed by `String`, nor of the `ahash`
//! hasher, so the map is reached through the small functions below.  Their
//! contracts are taken on trust; each one holds a single call.

use std::collections::HashMap;
use vstd::prelude::*;

verus! {

/// `ahash::RandomState`, the hasher state of the index.  It is carried along
/// and nothing is known of what it holds.
#[verifier::external_type_specification]
#[verifier::external_body]
pub struct ExRandomState(ahash::RandomState);

/// The bindings that a name index holds, keyed by the characters of each name.
pub uninterp spec fn name_bindings(index: HashMap<String, usize, ahash::RandomState>) -> Map<
    Seq<char>,
    usize,
>;

/// The index without any binding.
pub open spec fn no_bindings() -> Map<Seq<char>, usize> {
    Map::empty()
}

/// `HashMap::default` with `ahash::RandomState::default` as the hasher state:
/// the new index holds no binding.
#[verifier::external_body]
pub(crate) fn index_new() -> (index: HashMap<String, usize, ahash::RandomState>)
    ensures
        name_bindings(index) == no_bindings(),
{
    HashMap::default()
}

/// `HashMap::get`: the id bound to `name`, if there is one.
#[verifier::external_body]
pub(crate) fn index_get(index: &HashMap<String, usize, ahash::RandomState>, name: &str) -> (id:
    Option<usize>)
    ensures
        id == (if name_bindings(*index).contains_key(name@) {
            Some(name_bindings(*index)[name@])
        } else {
            None
        }),
{
    index.get(name).copied()
}

/// `HashMap::contains_key`: whether `name` is bound.
#[verifier::external_body]
pub(crate) fn index_contains(index: &HashMap<String, usize, ahash::RandomState>, name: &str) -> (found:
    bool)
    ensures
        found == name_bindings(*index).contains_key(name@),
{
    index.contains_key(name)
}

/// `HashMap::insert`: binds `name` to `id`, replacing an earlier binding of
/// the same name and leaving every other name as it was.
#[verifier::external_body]
pub(crate) fn index_insert(
    index: &mut HashMap<String, usize, ahash::RandomState>,
    name: String,
    id: usize,
)
    ensures
        name_bindings(*final(index)) == name_bindings(*old(index)).insert(name@, id),
{
    index.insert(name, id);
}

/// `HashMap::remove`: drops the binding of `name`, if there is one, and
/// leaves every other name as it was.
#[verifier::external_body]
pub(crate) fn index_remove(index: &mut HashMap<String, usize, ahash::RandomState>, name: &str)
    ensures
        name_bindings(*final(index)) == name_bindings(*old(index)).remove(name@),
{
    index.remove(name);
}

/// `HashMap::clear`: drops every binding.
#[verifier::external_body]
pub(crate) fn index_clear(index: &mut HashMap<String, usize, ahash::RandomState>)
    ensures
        name_bindings(*final(index)) == no_bindings(),
{
    index.clear();
}

} // verus!
