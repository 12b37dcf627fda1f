//! The map from the generics of a package to their actuals, an `fnv::FnvHashMap`.

use vstd::prelude::*;
use fnv::FnvHashMap;
use fnv::FnvHasher;
use std::hash::BuildHasherDefault;

use crate::named_entity::EntRef;
use crate::named_entity::EntityId;

verus! {

#[verifier::external_type_specification]
#[verifier::external_body]
pub struct ExFnvHasher(FnvHasher);

#[verifier::external_type_specification]
#[verifier::external_body]
#[verifier::reject_recursive_types(H)]
pub struct ExBuildHasherDefault<H>(BuildHasherDefault<H>);

/// `HashMap::insert` on an `fnv::FnvHashMap` keyed by entity identities.
///
/// Claims what std's `HashMap::insert` does for any hasher that gives equal keys
/// equal hashes, as FNV does: afterwards `id` maps to `ent`, and every other key
/// keeps its value.
#[verifier::external_body]
pub(crate) fn mapping_insert(mapping: &mut FnvHashMap<EntityId, EntRef>, id: EntityId, ent: EntRef)
    ensures
        final(mapping)@ == old(mapping)@.insert(id, ent),
{
    mapping.insert(id, ent);
}

/// `HashMap::get` on an `fnv::FnvHashMap` keyed by entity identities.
///
/// Claims what std's `HashMap::get` does: the value that `id` maps to, or `None`
/// where `id` is not a key.
#[verifier::external_body]
pub(crate) fn mapping_get(mapping: &FnvHashMap<EntityId, EntRef>, id: EntityId) -> (r: Option<&EntRef>)
    ensures
        r is Some <==> mapping@.contains_key(id),
        r matches Some(e) ==> *e == mapping@[id],
{
    mapping.get(&id)
}

} // verus!
