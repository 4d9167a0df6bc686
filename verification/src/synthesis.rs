//! What the entity tracker hands to a fresh decoder: the messages that are
//! synthesized from its state, said as predicates over their values.

use vstd::prelude::*;

use crate::entity::TrackerView;
use crate::entity_map::view_keys;
use crate::index_set::{lemma_ascending_unique, strictly_increasing};
use crate::model::{
    entity_views, slot_valid, BaselineSlotsView, Entity, EntityUpdate, EntityUpdateView, EntityView, Prop,
    UpdateType,
};
use crate::props::fold_props;
use crate::sorting::{
    is_sorted_copy, lemma_sorted_copy_of_ordered, lemma_with_index_once, sort_by_index, with_index,
};

verus! {

/// `i` is the position of the first entity of `slot` with index `k`, or
/// `slot.len()` when the slot has none.
pub open spec fn is_first_at(slot: Seq<EntityView>, k: u32, i: int) -> bool {
    &&& 0 <= i <= slot.len()
    &&& i < slot.len() ==> slot[i].entity_index == k
    &&& forall|j: int| 0 <= j < i ==> slot[j].entity_index != k
}

/// Position of the first entity of `slot` with index `k`, or `slot.len()`.
pub open spec fn first_at(slot: Seq<EntityView>, k: u32) -> int
    decreases slot.len(),
{
    if slot.len() == 0 {
        0
    } else if slot[0].entity_index == k {
        0
    } else {
        1 + first_at(slot.drop_first(), k)
    }
}

/// `first_at` is the one position that `is_first_at` accepts.
pub(crate) proof fn lemma_first_at(slot: Seq<EntityView>, k: u32)
    ensures
        is_first_at(slot, k, first_at(slot, k)),
        forall|i: int| is_first_at(slot, k, i) ==> i == first_at(slot, k),
    decreases slot.len(),
{
    if slot.len() > 0 && slot[0].entity_index != k {
        let rest = slot.drop_first();
        lemma_first_at(rest, k);
        let r = first_at(rest, k);
        assert forall|j: int| 0 <= j < 1 + r implies slot[j].entity_index != k by {
            if j > 0 {
                assert(rest[j - 1] == slot[j]);
            }
        }
        if r < rest.len() {
            assert(rest[r] == slot[r + 1]);
        }
    }
    let f = first_at(slot, k);
    assert forall|i: int| is_first_at(slot, k, i) implies i == f by {
        if i < f {
            assert(slot[i].entity_index == k);
        } else if f < i {
            assert(slot[f].entity_index == k);
        }
    }
}

/// The entry of a visible entity in the synthesized snapshot.
///
/// Every entity enters. Where the first baseline slot knows the index under
/// another class, nothing of that baseline applies, so the entity carries its
/// own baseline properties with its updates folded onto them.
pub open spec fn snapshot_entity(e: EntityView, slot: Seq<EntityView>) -> EntityView {
    let i = first_at(slot, e.entity_index);
    if i < slot.len() && slot[i].server_class != e.server_class {
        EntityView {
            update_type: UpdateType::Enter,
            props: fold_props(e.baseline_props, e.props),
            baseline_props: Seq::<Prop>::empty(),
            ..e
        }
    } else {
        EntityView { update_type: UpdateType::Enter, ..e }
    }
}

/// The entry of an index that a baseline slot knows and that is not visible.
pub open spec fn departed_entity(k: u32, deleted: bool) -> EntityView {
    EntityView {
        entity_index: k,
        server_class: 0,
        serial_number: 0,
        update_type: if deleted {
            UpdateType::Delete
        } else {
            UpdateType::Leave
        },
        in_pvs: false,
        props: Seq::<Prop>::empty(),
        baseline_props: Seq::<Prop>::empty(),
    }
}

/// The indices that either baseline slot knows.
pub open spec fn slot_ids(b: BaselineSlotsView) -> Set<u32> {
    view_keys(b.first).to_set().union(view_keys(b.second).to_set())
}

/// The tick `by` ticks before `tick`, and zero where there is none.
pub open spec fn ticks_before(tick: u32, by: u32) -> u32 {
    if tick >= by {
        (tick - by) as u32
    } else {
        0
    }
}

/// A basis tick as a message carries it: tick zero stands for no basis.
pub open spec fn basis_field(delta: Option<u32>) -> Option<u32> {
    match delta {
        Some(d) => if d == 0 {
            None
        } else {
            Some(d)
        },
        None => None,
    }
}

/// `m` is a baseline refresh made of the entities of `slot`, by ascending
/// index, and marked with slot number `slot_no`.
pub open spec fn is_baseline_refresh(
    m: EntityUpdateView,
    slot: Seq<EntityView>,
    slot_no: u8,
    max_entities: u16,
) -> bool {
    &&& is_sorted_copy(m.entities, slot)
    &&& m.removed_entities == Seq::<u32>::empty()
    &&& m.max_entries == max_entities
    &&& m.delta is None
    &&& m.base_line == slot_no
    &&& m.updated_base_line
}

/// `m` is the snapshot of tracker `t`: each visible entity once, by
/// ascending index, as `snapshot_entity` gives it.
pub open spec fn is_snapshot(
    m: EntityUpdateView,
    t: TrackerView,
    slot: Seq<EntityView>,
    basis: u32,
) -> bool {
    &&& strictly_increasing(view_keys(m.entities))
    &&& view_keys(m.entities).to_set() == t.active.dom()
    &&& forall|i: int|
        0 <= i < m.entities.len() ==> #[trigger] m.entities[i] == snapshot_entity(
            t.active[m.entities[i].entity_index],
            slot,
        )
    &&& m.removed_entities == Seq::<u32>::empty()
    &&& m.max_entries == t.max_entities
    &&& m.delta == basis_field(Some(basis))
    &&& m.base_line == 0
    &&& !m.updated_base_line
}

/// `m` is the removal message of tracker `t`: each index that a baseline
/// slot knows and that is not visible once, by ascending index, deleted if
/// the tracker saw it destroyed and left otherwise; and the evicted indices.
pub open spec fn is_removal(
    m: EntityUpdateView,
    t: TrackerView,
    b: BaselineSlotsView,
    basis: u32,
) -> bool {
    &&& strictly_increasing(view_keys(m.entities))
    &&& view_keys(m.entities).to_set() == slot_ids(b).difference(t.active.dom())
    &&& forall|i: int|
        0 <= i < m.entities.len() ==> #[trigger] m.entities[i] == departed_entity(
            m.entities[i].entity_index,
            t.deleted.contains(m.entities[i].entity_index),
        )
    &&& strictly_increasing(m.removed_entities)
    &&& m.removed_entities.to_set() == t.removed
    &&& m.max_entries == t.max_entities
    &&& m.delta == basis_field(Some(basis))
    &&& m.base_line == 0
    &&& !m.updated_base_line
}

/// Every visible entity has one entry in the snapshot, and no other index
/// has any. Every index that a baseline slot knows and that is not visible
/// has one entry in the removal message, which deletes it if the tracker saw
/// it destroyed and lets it leave otherwise, and no other index has any.
pub proof fn lemma_entity_completeness(
    snapshot: EntityUpdateView,
    removal: EntityUpdateView,
    t: TrackerView,
    b: BaselineSlotsView,
    snapshot_basis: u32,
    removal_basis: u32,
)
    requires
        is_snapshot(snapshot, t, b.first, snapshot_basis),
        is_removal(removal, t, b, removal_basis),
    ensures
        forall|k: u32|
            t.active.contains_key(k) ==> (#[trigger] with_index(snapshot.entities, k)) == seq![
                snapshot_entity(t.active[k], b.first),
            ],
        forall|k: u32|
            !t.active.contains_key(k) ==> (#[trigger] with_index(snapshot.entities, k)).len() == 0,
        forall|k: u32|
            slot_ids(b).contains(k) && !t.active.contains_key(k) ==> (#[trigger] with_index(
                removal.entities,
                k,
            )) == seq![departed_entity(k, t.deleted.contains(k))],
        forall|k: u32|
            !slot_ids(b).contains(k) || t.active.contains_key(k) ==> (#[trigger] with_index(
                removal.entities,
                k,
            )).len() == 0,
{
    assert forall|k: u32| true implies (t.active.contains_key(k) ==> (#[trigger] with_index(
        snapshot.entities,
        k,
    )) == seq![snapshot_entity(t.active[k], b.first)]) && (!t.active.contains_key(k)
        ==> with_index(snapshot.entities, k).len() == 0) by {
        lemma_with_index_once(snapshot.entities, k);
        let keys = view_keys(snapshot.entities);
        assert(keys.contains(k) <==> keys.to_set().contains(k));
        if t.active.contains_key(k) {
            let found = with_index(snapshot.entities, k)[0];
            let i = choose|i: int| 0 <= i < snapshot.entities.len() && snapshot.entities[i] == found;
            assert(snapshot.entities[i] == snapshot_entity(
                t.active[snapshot.entities[i].entity_index],
                b.first,
            ));
            assert(with_index(snapshot.entities, k) =~= seq![found]);
        }
    }
    assert forall|k: u32| true implies (slot_ids(b).contains(k) && !t.active.contains_key(k) ==> (
    #[trigger] with_index(removal.entities, k)) == seq![
        departed_entity(k, t.deleted.contains(k)),
    ]) && (!slot_ids(b).contains(k) || t.active.contains_key(k) ==> with_index(
        removal.entities,
        k,
    ).len() == 0) by {
        lemma_with_index_once(removal.entities, k);
        let keys = view_keys(removal.entities);
        assert(keys.contains(k) <==> keys.to_set().contains(k));
        if slot_ids(b).contains(k) && !t.active.contains_key(k) {
            let found = with_index(removal.entities, k)[0];
            let i = choose|i: int| 0 <= i < removal.entities.len() && removal.entities[i] == found;
            assert(removal.entities[i] == departed_entity(
                removal.entities[i].entity_index,
                t.deleted.contains(removal.entities[i].entity_index),
            ));
            assert(with_index(removal.entities, k) =~= seq![found]);
        }
    }
}

/// The tracker, the baseline slot and the basis tick leave one snapshot only.
pub proof fn lemma_snapshot_determined(
    a: EntityUpdateView,
    b: EntityUpdateView,
    t: TrackerView,
    slot: Seq<EntityView>,
    basis: u32,
)
    requires
        is_snapshot(a, t, slot, basis),
        is_snapshot(b, t, slot, basis),
    ensures
        a == b,
{
    lemma_ascending_unique(view_keys(a.entities), view_keys(b.entities));
    assert(a.entities.len() == view_keys(a.entities).len());
    assert(b.entities.len() == view_keys(b.entities).len());
    assert forall|i: int| 0 <= i < a.entities.len() implies a.entities[i] == b.entities[i] by {
        assert(view_keys(a.entities)[i] == view_keys(b.entities)[i]);
    }
    assert(a.entities =~= b.entities);
}

/// The tracker, the baseline slots and the basis tick leave one removal
/// message only.
pub proof fn lemma_removal_determined(
    a: EntityUpdateView,
    b: EntityUpdateView,
    t: TrackerView,
    slots: BaselineSlotsView,
    basis: u32,
)
    requires
        is_removal(a, t, slots, basis),
        is_removal(b, t, slots, basis),
    ensures
        a == b,
{
    lemma_ascending_unique(view_keys(a.entities), view_keys(b.entities));
    lemma_ascending_unique(a.removed_entities, b.removed_entities);
    assert(a.entities.len() == view_keys(a.entities).len());
    assert(b.entities.len() == view_keys(b.entities).len());
    assert forall|i: int| 0 <= i < a.entities.len() implies a.entities[i] == b.entities[i] by {
        assert(view_keys(a.entities)[i] == view_keys(b.entities)[i]);
    }
    assert(a.entities =~= b.entities);
}

/// The refresh made of a slot that holds each index once, by ascending
/// index, lists the entities of the slot as they stand.
pub proof fn lemma_refresh_lists_slot(
    m: EntityUpdateView,
    slot: Seq<EntityView>,
    slot_no: u8,
    max_entities: u16,
)
    requires
        is_baseline_refresh(m, slot, slot_no, max_entities),
        slot_valid(slot),
    ensures
        m.entities == slot,
{
    assert forall|i: int, j: int| 0 <= i < j < slot.len() implies slot[i].entity_index
        <= slot[j].entity_index by {
        assert(view_keys(slot)[i] < view_keys(slot)[j]);
    }
    lemma_sorted_copy_of_ordered(m.entities, slot);
}

/// A baseline slot and the slot count leave one refresh message only.
pub proof fn lemma_refresh_determined(
    a: EntityUpdateView,
    b: EntityUpdateView,
    slot: Seq<EntityView>,
    slot_no: u8,
    max_entities: u16,
)
    requires
        is_baseline_refresh(a, slot, slot_no, max_entities),
        is_baseline_refresh(b, slot, slot_no, max_entities),
    ensures
        a == b,
{
    lemma_sorted_copy_of_ordered(a.entities, b.entities);
}

/// Builds an update message from entities in any order: the message lists
/// them by ascending index.
pub fn encode_entities(
    entities: Vec<Entity>,
    max_entries: u16,
    delta: Option<u32>,
    removed_entities: Vec<u32>,
) -> (r: EntityUpdate)
    ensures
        is_sorted_copy(r@.entities, entity_views(entities@)),
        r@.removed_entities == removed_entities@,
        r@.max_entries == max_entries,
        r@.delta == basis_field(delta),
        r@.base_line == 0,
        !r@.updated_base_line,
{
    let sorted = sort_by_index(entities);
    let delta = match delta {
        Some(d) => if d == 0 {
            None
        } else {
            Some(d)
        },
        None => None,
    };
    EntityUpdate {
        entities: sorted,
        removed_entities,
        max_entries,
        delta,
        base_line: 0,
        updated_base_line: false,
    }
}

/// Position of the first entity of `slot` with index `k`.
pub fn find_in_slot(slot: &Vec<Entity>, k: u32) -> (i: usize)
    ensures
        i as int == first_at(entity_views(slot@), k),
        i <= slot.len(),
{
    let mut i: usize = 0;
    while i < slot.len() && slot[i].entity_index != k
        invariant
            i <= slot.len(),
            forall|j: int| 0 <= j < i ==> entity_views(slot@)[j].entity_index != k,
        decreases slot.len() - i,
    {
        i = i + 1;
    }
    proof {
        lemma_first_at(entity_views(slot@), k);
        assert(is_first_at(entity_views(slot@), k, i as int));
    }
    i
}

} // verus!
