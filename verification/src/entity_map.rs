//! Entities kept by ascending index, read as a map from index to entity.

use vstd::prelude::*;

use crate::index_set::strictly_increasing;
use crate::model::{Entity, EntityView};

verus! {

/// The indices of a list of entities, in order.
pub open spec fn entity_keys(s: Seq<Entity>) -> Seq<u32> {
    s.map_values(|e: Entity| e.entity_index)
}

/// The indices of a list of entity values, in order.
pub open spec fn view_keys(s: Seq<EntityView>) -> Seq<u32> {
    s.map_values(|e: EntityView| e.entity_index)
}

/// Whether an entity with index `k` is in the list.
pub open spec fn has_entity(s: Seq<Entity>, k: u32) -> bool {
    exists|i: int| 0 <= i < s.len() && s[i].entity_index == k
}

/// The list read as a map: each index to the entity that carries it.
pub open spec fn entity_map(s: Seq<Entity>) -> Map<u32, EntityView> {
    Map::new(
        |k: u32| has_entity(s, k),
        |k: u32| s[choose|i: int| 0 <= i < s.len() && s[i].entity_index == k]@,
    )
}

/// In an ascending list, the entity at position `i` is what the map holds
/// under its index.
pub(crate) proof fn lemma_entity_at(s: Seq<Entity>, i: int)
    requires
        strictly_increasing(entity_keys(s)),
        0 <= i < s.len(),
    ensures
        entity_map(s).contains_key(s[i].entity_index),
        entity_map(s)[s[i].entity_index] == s[i]@,
{
    let k = s[i].entity_index;
    assert(has_entity(s, k));
    let c = choose|c: int| 0 <= c < s.len() && s[c].entity_index == k;
    if c != i {
        assert(entity_keys(s)[c] == k && entity_keys(s)[i] == k);
        if c < i {
            assert(entity_keys(s)[c] < entity_keys(s)[i]);
        } else {
            assert(entity_keys(s)[i] < entity_keys(s)[c]);
        }
    }
}

/// The map has as many entries as the ascending list has entities, and its
/// domain is the set of their indices.
pub(crate) proof fn lemma_entity_map_dom(s: Seq<Entity>)
    requires
        strictly_increasing(entity_keys(s)),
    ensures
        entity_map(s).dom() == entity_keys(s).to_set(),
        entity_map(s).dom().finite(),
        entity_map(s).dom().len() == s.len(),
{
    let keys = entity_keys(s);
    assert forall|k: u32| entity_map(s).dom().contains(k) <==> keys.to_set().contains(k) by {
        if has_entity(s, k) {
            let c = choose|c: int| 0 <= c < s.len() && s[c].entity_index == k;
            assert(keys[c] == k);
        }
        if keys.to_set().contains(k) {
            let c = choose|c: int| 0 <= c < keys.len() && keys[c] == k;
            assert(s[c].entity_index == k);
        }
    }
    assert(entity_map(s).dom() =~= keys.to_set());
    keys.unique_seq_to_set();
}

} // verus!
