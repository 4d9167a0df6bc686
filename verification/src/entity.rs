//! The entity tracker: what a decoder that has read a prefix of the capture
//! holds as its visible entities, and which indices it has seen go.

use std::collections::BTreeSet;
use vstd::prelude::*;

use crate::entity_map::{
    entity_keys, entity_map, lemma_entity_at, lemma_entity_map_dom, view_keys,
};
use crate::error::CutError;
use crate::index_set::{ascending, strictly_increasing};
use crate::sorted_map::SortedMap;
use crate::model::{
    duplicate_entities, entity_views, slots_valid, BaselineSlots, Entity, EntityUpdate,
    EntityUpdateView, EntityView, Prop, TickedUpdate, UpdateType,
};
use crate::props::{apply_update, fold_props, ids_unique, lemma_fold_props_unique};
use crate::synthesis::{
    departed_entity, encode_entities, find_in_slot, is_baseline_refresh, is_removal, is_snapshot,
    slot_ids, snapshot_entity, ticks_before,
};

verus! {

/// Mathematical value of an [`ActiveEntities`].
pub struct TrackerView {
    /// The visible entities by index.
    pub active: Map<u32, EntityView>,
    /// Indices whose last entity entry destroyed them.
    pub deleted: Set<u32>,
    /// Indices that a removal list evicted last.
    pub removed: Set<u32>,
    /// Largest slot count that any message announced.
    pub max_entities: u16,
}

/// The tracker that has seen nothing.
pub open spec fn empty_tracker() -> TrackerView {
    TrackerView {
        active: Map::<u32, EntityView>::empty(),
        deleted: Set::<u32>::empty(),
        removed: Set::<u32>::empty(),
        max_entities: 0,
    }
}

/// The stored entity after an update for the same index, or `None` where the
/// update keeps the serial number but names another class.
pub open spec fn merge_entity(existing: EntityView, incoming: EntityView) -> Option<EntityView> {
    if existing.serial_number != incoming.serial_number && existing.server_class
        != incoming.server_class {
        Some(EntityView { update_type: UpdateType::Enter, ..incoming })
    } else if existing.server_class != incoming.server_class {
        None
    } else if existing.serial_number != incoming.serial_number {
        Some(
            EntityView {
                serial_number: incoming.serial_number,
                update_type: UpdateType::Enter,
                props: fold_props(existing.props, incoming.props),
                ..existing
            },
        )
    } else {
        Some(EntityView { props: fold_props(existing.props, incoming.props), ..existing })
    }
}

/// The tracker after one entity entry.
pub open spec fn ingest_entity(t: TrackerView, e: EntityView) -> Option<TrackerView> {
    let k = e.entity_index;
    let removed = t.removed.remove(k);
    let deleted = if e.update_type == UpdateType::Delete {
        t.deleted.insert(k)
    } else {
        t.deleted.remove(k)
    };
    if e.update_type == UpdateType::Delete || e.update_type == UpdateType::Leave {
        Some(TrackerView { active: t.active.remove(k), deleted, removed, ..t })
    } else if t.active.contains_key(k) {
        match merge_entity(t.active[k], e) {
            Some(merged) => Some(
                TrackerView { active: t.active.insert(k, merged), deleted, removed, ..t },
            ),
            None => None,
        }
    } else {
        Some(TrackerView { active: t.active.insert(k, e), deleted, removed, ..t })
    }
}

/// The tracker after a list of entity entries, taken in order.
pub open spec fn ingest_entities(t: TrackerView, es: Seq<EntityView>) -> Option<TrackerView>
    decreases es.len(),
{
    if es.len() == 0 {
        Some(t)
    } else {
        match ingest_entities(t, es.drop_last()) {
            Some(before) => ingest_entity(before, es.last()),
            None => None,
        }
    }
}

/// The tracker after one index of a removal list.
pub open spec fn ingest_removal(t: TrackerView, k: u32) -> TrackerView {
    TrackerView {
        active: t.active.remove(k),
        deleted: t.deleted.remove(k),
        removed: t.removed.insert(k),
        ..t
    }
}

/// The tracker after a removal list, taken in order.
pub open spec fn ingest_removals(t: TrackerView, ks: Seq<u32>) -> TrackerView
    decreases ks.len(),
{
    if ks.len() == 0 {
        t
    } else {
        ingest_removal(ingest_removals(t, ks.drop_last()), ks.last())
    }
}

/// The tracker after one update message: the slot count first, then the
/// entity entries, then the removal list.
pub open spec fn ingest_message(t: TrackerView, m: EntityUpdateView) -> Option<TrackerView> {
    match ingest_entities(counted(t, m), m.entities) {
        Some(t1) => Some(ingest_removals(t1, m.removed_entities)),
        None => None,
    }
}

/// The tracker with the slot count of a message taken in.
pub open spec fn counted(t: TrackerView, m: EntityUpdateView) -> TrackerView {
    TrackerView {
        max_entities: if t.max_entities >= m.max_entries {
            t.max_entities
        } else {
            m.max_entries
        },
        ..t
    }
}

/// The tracker at the point where a message is refused: the entries before
/// the refused one are taken in, and of the refused one only the marks that
/// it clears. There is none where no entry is refused.
pub open spec fn refused_at(t: TrackerView, m: EntityUpdateView, n: int) -> Option<TrackerView> {
    if 0 <= n < m.entities.len() {
        match ingest_entities(counted(t, m), m.entities.take(n)) {
            Some(before) => if ingest_entity(before, m.entities[n]) is None {
                Some(
                    TrackerView {
                        deleted: before.deleted.remove(m.entities[n].entity_index),
                        removed: before.removed.remove(m.entities[n].entity_index),
                        ..before
                    },
                )
            } else {
                None
            },
            None => None,
        }
    } else {
        None
    }
}

/// Once an entity entry is refused, the whole list is.
pub(crate) proof fn lemma_ingest_refused(t: TrackerView, es: Seq<EntityView>, n: int)
    requires
        0 <= n <= es.len(),
        ingest_entities(t, es.take(n)) is None,
    ensures
        ingest_entities(t, es) is None,
    decreases es.len() - n,
{
    if n < es.len() {
        assert(es.take(n + 1).drop_last() == es.take(n));
        lemma_ingest_refused(t, es, n + 1);
    } else {
        assert(es.take(n) == es);
    }
}

/// The set of explicitly deleted indices and the set of evicted indices stay
/// apart through every step.
pub proof fn lemma_ingest_keeps_apart(t: TrackerView, m: EntityUpdateView)
    requires
        t.deleted.disjoint(t.removed),
        ingest_message(t, m) is Some,
    ensures
        ingest_message(t, m)->0.deleted.disjoint(ingest_message(t, m)->0.removed),
{
    lemma_entities_keep_apart(counted(t, m), m.entities);
    lemma_removals_keep_apart(ingest_entities(counted(t, m), m.entities)->0, m.removed_entities);
}

proof fn lemma_entities_keep_apart(t: TrackerView, es: Seq<EntityView>)
    requires
        t.deleted.disjoint(t.removed),
        ingest_entities(t, es) is Some,
    ensures
        ingest_entities(t, es)->0.deleted.disjoint(ingest_entities(t, es)->0.removed),
    decreases es.len(),
{
    if es.len() > 0 {
        lemma_entities_keep_apart(t, es.drop_last());
    }
}

proof fn lemma_removals_keep_apart(t: TrackerView, ks: Seq<u32>)
    requires
        t.deleted.disjoint(t.removed),
    ensures
        ingest_removals(t, ks).deleted.disjoint(ingest_removals(t, ks).removed),
    decreases ks.len(),
{
    if ks.len() > 0 {
        lemma_removals_keep_apart(t, ks.drop_last());
    }
}

/// No visible entity has two properties with the same identifier.
pub open spec fn props_unique(t: TrackerView) -> bool {
    forall|k: u32| t.active.contains_key(k) ==> ids_unique((#[trigger] t.active[k]).props)
}

/// No entity entry of the message has two properties with the same
/// identifier.
pub open spec fn update_unique(m: EntityUpdateView) -> bool {
    forall|i: int| 0 <= i < m.entities.len() ==> ids_unique((#[trigger] m.entities[i]).props)
}

/// Property identifiers stay unique per entity: where they are in the
/// tracker and in the message, they are in the tracker after the message.
pub proof fn lemma_ingest_keeps_ids_unique(t: TrackerView, m: EntityUpdateView)
    requires
        props_unique(t),
        update_unique(m),
        ingest_message(t, m) is Some,
    ensures
        props_unique(ingest_message(t, m)->0),
{
    lemma_entities_keep_ids_unique(counted(t, m), m.entities);
    lemma_removals_keep_ids_unique(
        ingest_entities(counted(t, m), m.entities)->0,
        m.removed_entities,
    );
}

proof fn lemma_entities_keep_ids_unique(t: TrackerView, es: Seq<EntityView>)
    requires
        props_unique(t),
        forall|i: int| 0 <= i < es.len() ==> ids_unique((#[trigger] es[i]).props),
        ingest_entities(t, es) is Some,
    ensures
        props_unique(ingest_entities(t, es)->0),
    decreases es.len(),
{
    if es.len() > 0 {
        let rest = es.drop_last();
        assert forall|i: int| 0 <= i < rest.len() implies ids_unique((#[trigger] rest[i]).props) by {
            assert(rest[i] == es[i]);
        }
        lemma_entities_keep_ids_unique(t, rest);
        let before = ingest_entities(t, rest)->0;
        let e = es.last();
        assert(ids_unique(es[es.len() - 1].props));
        if before.active.contains_key(e.entity_index) {
            lemma_fold_props_unique(before.active[e.entity_index].props, e.props);
        }
    }
}

proof fn lemma_removals_keep_ids_unique(t: TrackerView, ks: Seq<u32>)
    requires
        props_unique(t),
    ensures
        props_unique(ingest_removals(t, ks)),
    decreases ks.len(),
{
    if ks.len() > 0 {
        lemma_removals_keep_ids_unique(t, ks.drop_last());
    }
}

/// The entities of a map, each as its value.
pub open spec fn visible_of(entities: Map<u32, Entity>) -> Map<u32, EntityView> {
    Map::new(|k: u32| entities.contains_key(k), |k: u32| entities[k]@)
}

/// Each entity stands under its own index.
pub open spec fn keyed_by_index(entities: Map<u32, Entity>) -> bool {
    forall|k: u32| entities.contains_key(k) ==> (#[trigger] entities[k]).entity_index == k
}

/// Tracks the visible entities over the packets that precede a cut.
#[derive(Debug)]
pub struct ActiveEntities {
    entities: SortedMap<Entity>,
    max_entities: u16,
    deleted_entities: BTreeSet<u32>,
    removed_entities: BTreeSet<u32>,
}

impl View for ActiveEntities {
    type V = TrackerView;

    closed spec fn view(&self) -> TrackerView {
        TrackerView {
            active: visible_of(self.entities@),
            deleted: self.deleted_entities@,
            removed: self.removed_entities@,
            max_entities: self.max_entities,
        }
    }
}

impl Default for ActiveEntities {
    fn default() -> (r: ActiveEntities)
        ensures
            r.wf(),
            r@ == empty_tracker(),
    {
        ActiveEntities::new()
    }
}

impl ActiveEntities {
    /// No two stored entities share an index, and no index is both deleted
    /// and evicted.
    pub closed spec fn wf(&self) -> bool {
        &&& self.entities.wf()
        &&& keyed_by_index(self.entities@)
        &&& self.deleted_entities@.disjoint(self.removed_entities@)
    }

    /// A tracker that has seen nothing.
    pub fn new() -> (r: ActiveEntities)
        ensures
            r.wf(),
            r@ == empty_tracker(),
    {
        let r = ActiveEntities {
            entities: SortedMap::new(),
            max_entities: 0,
            deleted_entities: BTreeSet::new(),
            removed_entities: BTreeSet::new(),
        };
        assert(visible_of(r.entities@) =~= Map::<u32, EntityView>::empty());
        r
    }

    /// The tracker holds finitely many entities, and no index is both
    /// deleted and evicted.
    pub proof fn lemma_wf(&self)
        requires
            self.wf(),
        ensures
            self@.active.dom().finite(),
            self@.deleted.disjoint(self@.removed),
    {
        self.entities.lemma_ascending();
        assert(self@.active.dom() =~= self.entities@.dom());
    }

    fn remove_entity(&mut self, entity_index: u32)
        requires
            old(self).wf(),
        ensures
            final(self).wf(),
            final(self)@ == (TrackerView {
                active: old(self)@.active.remove(entity_index),
                ..old(self)@
            }),
    {
        let _ = self.entities.remove(entity_index);
        assert(self@.active =~= old(self)@.active.remove(entity_index));
    }

    fn handle_entity(&mut self, entity: &Entity) -> (r: Result<(), CutError>)
        requires
            old(self).wf(),
            entity.update_type != UpdateType::Delete,
            entity.update_type != UpdateType::Leave,
        ensures
            final(self).wf(),
            final(self)@.deleted == old(self)@.deleted,
            final(self)@.removed == old(self)@.removed,
            final(self)@.max_entities == old(self)@.max_entities,
            old(self)@.active.contains_key(entity.entity_index) ==> match merge_entity(
                old(self)@.active[entity.entity_index],
                entity@,
            ) {
                Some(merged) => r is Ok && final(self)@.active == old(self)@.active.insert(
                    entity.entity_index,
                    merged,
                ),
                None => r == Err::<(), CutError>(CutError::ClassMismatch)
                    && final(self)@ == old(self)@,
            },
            !old(self)@.active.contains_key(entity.entity_index) ==> r is Ok
                && final(self)@.active == old(self)@.active.insert(entity.entity_index, entity@),
    {
        let k = entity.entity_index;
        let ghost before = self@.active;
        match self.entities.remove(k) {
            Some(existing) => {
                let mut existing = existing;
                let serial_differs = existing.serial_number != entity.serial_number;
                let class_differs = existing.server_class != entity.server_class;
                if serial_differs && class_differs {
                    let mut fresh = entity.duplicate();
                    fresh.update_type = UpdateType::Enter;
                    self.entities.insert(k, fresh);
                } else if class_differs {
                    self.entities.insert(k, existing);
                    proof {
                        assert(self.entities@ =~= old(self).entities@);
                    }
                    return Err(CutError::ClassMismatch);
                } else {
                    if serial_differs {
                        existing.serial_number = entity.serial_number;
                        existing.update_type = UpdateType::Enter;
                    }
                    apply_update(&mut existing.props, &entity.props);
                    self.entities.insert(k, existing);
                }
                proof {
                    assert(self@.active =~= before.insert(k, self.entities@[k]@));
                }
            },
            None => {
                let fresh = entity.duplicate();
                self.entities.insert(k, fresh);
                proof {
                    assert(self@.active =~= before.insert(k, entity@));
                }
            },
        }
        Ok(())
    }

    /// Folds one update message into the tracker.
    ///
    /// Fails exactly when an entry keeps the serial number of the stored
    /// entity but names another class. The tracker then stands where the
    /// entry was refused.
    pub fn handle_message(&mut self, msg: &EntityUpdate) -> (r: Result<(), CutError>)
        requires
            old(self).wf(),
        ensures
            final(self).wf(),
            match ingest_message(old(self)@, msg@) {
                Some(t) => r is Ok && final(self)@ == t,
                None => r == Err::<(), CutError>(CutError::ClassMismatch) && exists|n: int|
                    #[trigger] refused_at(old(self)@, msg@, n) == Some(final(self)@),
            },
    {
        if msg.max_entries > self.max_entities {
            self.max_entities = msg.max_entries;
        }
        let ghost start = self@;
        let ghost es = msg@.entities;
        let ghost goal = ingest_message(old(self)@, msg@);
        let mut n: usize = 0;
        while n < msg.entities.len()
            invariant
                n <= msg.entities.len(),
                self.wf(),
                es == entity_views(msg.entities@),
                es == msg@.entities,
                start == counted(old(self)@, msg@),
                goal == ingest_message(old(self)@, msg@),
                ingest_entities(start, es) is None ==> goal is None,
                ingest_entities(start, es.take(n as int)) == Some(self@),
            decreases msg.entities.len() - n,
        {
            let entity = &msg.entities[n];
            let k = entity.entity_index;
            let ghost before = self@;
            proof {
                assert(es.take(n + 1).drop_last() == es.take(n as int));
                assert(es.take(n + 1).last() == entity@);
            }
            self.removed_entities.remove(&k);
            match entity.update_type {
                UpdateType::Delete => {
                    self.deleted_entities.insert(k);
                    self.remove_entity(k);
                },
                UpdateType::Leave => {
                    self.deleted_entities.remove(&k);
                    self.remove_entity(k);
                },
                _ => {
                    self.deleted_entities.remove(&k);
                    match self.handle_entity(entity) {
                        Ok(()) => {},
                        Err(e) => {
                            proof {
                                assert(before.active.contains_key(k));
                                assert(e == CutError::ClassMismatch);
                                assert(ingest_entity(before, entity@) is None);
                                lemma_ingest_refused(start, es, n + 1);
                                assert(es[n as int] == entity@);
                                assert(refused_at(old(self)@, msg@, n as int) == Some(self@));
                            }
                            return Err(e);
                        },
                    }
                },
            }
            assert(ingest_entity(before, entity@) == Some(self@));
            n = n + 1;
        }
        proof {
            assert(es.take(n as int) == es);
        }
        let ghost entered = self@;
        let ghost ks = msg.removed_entities@;
        let mut j: usize = 0;
        while j < msg.removed_entities.len()
            invariant
                j <= msg.removed_entities.len(),
                self.wf(),
                ks == msg.removed_entities@,
                self@ == ingest_removals(entered, ks.take(j as int)),
            decreases msg.removed_entities.len() - j,
        {
            let k = msg.removed_entities[j];
            proof {
                assert(ks.take(j + 1).drop_last() == ks.take(j as int));
                assert(ks.take(j + 1).last() == k);
            }
            self.remove_entity(k);
            self.deleted_entities.remove(&k);
            self.removed_entities.insert(k);
            j = j + 1;
        }
        proof {
            assert(ks.take(j as int) == ks);
        }
        Ok(())
    }

    /// The indices of the visible entities.
    pub fn entity_ids(&self) -> (r: BTreeSet<u32>)
        requires
            self.wf(),
        ensures
            r@ == self@.active.dom(),
    {
        let mut ids = BTreeSet::new();
        let order = self.entities.keys();
        let mut i: usize = 0;
        proof {
            self.entities.lemma_ascending();
        }
        while i < order.len()
            invariant
                i <= order.len(),
                ids@ == order@.take(i as int).to_set(),
            decreases order.len() - i,
        {
            ids.insert(order[i]);
            proof {
                let ks = order@;
                assert(ks.take(i + 1) == ks.take(i as int).push(ks[i as int]));
                ks.take(i as int).lemma_push_to_set_commute(ks[i as int]);
            }
            i = i + 1;
        }
        proof {
            assert(order@.take(i as int) == order@);
            assert(self@.active.dom() =~= self.entities@.dom());
        }
        ids
    }

    /// The indices that either baseline slot knows.
    pub fn baseline_ids(&self, baselines: &BaselineSlots) -> (r: BTreeSet<u32>)
        ensures
            r@ == slot_ids(baselines@),
    {
        let mut ids = BTreeSet::new();
        let ghost first = view_keys(baselines@.first);
        let ghost second = view_keys(baselines@.second);
        let mut i: usize = 0;
        while i < baselines.first.len()
            invariant
                i <= baselines.first.len(),
                first == view_keys(entity_views(baselines.first@)),
                ids@ == first.take(i as int).to_set(),
            decreases baselines.first.len() - i,
        {
            ids.insert(baselines.first[i].entity_index);
            proof {
                assert(first.take(i + 1) == first.take(i as int).push(first[i as int]));
                first.take(i as int).lemma_push_to_set_commute(first[i as int]);
            }
            i = i + 1;
        }
        proof {
            assert(first.take(i as int) == first);
        }
        let mut j: usize = 0;
        while j < baselines.second.len()
            invariant
                j <= baselines.second.len(),
                second == view_keys(entity_views(baselines.second@)),
                ids@ == first.to_set().union(second.take(j as int).to_set()),
            decreases baselines.second.len() - j,
        {
            ids.insert(baselines.second[j].entity_index);
            proof {
                assert(second.take(j + 1) == second.take(j as int).push(second[j as int]));
                second.take(j as int).lemma_push_to_set_commute(second[j as int]);
                assert(first.to_set().union(second.take(j as int).to_set()).insert(
                    second[j as int],
                ) =~= first.to_set().union(second.take(j + 1).to_set()));
            }
            j = j + 1;
        }
        proof {
            assert(second.take(j as int) == second);
        }
        ids
    }

    /// The entities of the map by ascending index, each as a copy.
    fn sorted_entities(entities: &SortedMap<Entity>) -> (r: Vec<Entity>)
        requires
            entities.wf(),
            keyed_by_index(entities@),
        ensures
            strictly_increasing(entity_keys(r@)),
            entity_map(r@) == visible_of(entities@),
    {
        let order = entities.keys();
        proof {
            entities.lemma_ascending();
        }
        let mut out: Vec<Entity> = Vec::new();
        let mut i: usize = 0;
        while i < order.len()
            invariant
                i <= order.len(),
                entities.wf(),
                keyed_by_index(entities@),
                order@.to_set() == entities@.dom(),
                out.len() == i,
                forall|j: int| 0 <= j < i ==> (#[trigger] out@[j])@ == entities@[order@[j]]@,
            decreases order.len() - i,
        {
            proof {
                assert(order@.to_set().contains(order@[i as int]));
            }
            let entity = entities.value(order[i]).duplicate();
            out.push(entity);
            i = i + 1;
        }
        proof {
            assert(entity_keys(out@) =~= order@) by {
                assert forall|j: int| 0 <= j < out.len() implies entity_keys(out@)[j]
                    == order@[j] by {
                    assert(order@.to_set().contains(order@[j]));
                    assert(out@[j]@ == entities@[order@[j]]@);
                }
            }
            lemma_entity_map_dom(out@);
            assert forall|k: u32| entity_map(out@).contains_key(k) implies entity_map(out@)[k]
                == entities@[k]@ by {
                let j = choose|j: int| 0 <= j < order@.len() && order@[j] == k;
                lemma_entity_at(out@, j);
            }
            assert(entity_map(out@) =~= visible_of(entities@));
        }
        out
    }

    /// The snapshot entries of the visible entities, by ascending index.
    fn snapshot_entities(entities: Vec<Entity>, slot: &Vec<Entity>) -> (r: Vec<Entity>)
        requires
            strictly_increasing(entity_keys(entities@)),
        ensures
            r.len() == entities.len(),
            forall|i: int|
                0 <= i < r.len() ==> #[trigger] r@[i]@ == snapshot_entity(
                    entities@[i]@,
                    entity_views(slot@),
                ),
    {
        let mut out = entities;
        let mut i: usize = 0;
        while i < out.len()
            invariant
                i <= out.len(),
                out.len() == entities.len(),
                forall|j: int|
                    0 <= j < i ==> #[trigger] out@[j]@ == snapshot_entity(
                        entities@[j]@,
                        entity_views(slot@),
                    ),
                forall|j: int| i <= j < out.len() ==> out@[j] == entities@[j],
            decreases out.len() - i,
        {
            let at = find_in_slot(slot, out[i].entity_index);
            if at < slot.len() && slot[at].server_class != out[i].server_class {
                let mut folded: Vec<Prop> = Vec::new();
                std::mem::swap(&mut folded, &mut out[i].baseline_props);
                apply_update(&mut folded, &out[i].props);
                std::mem::swap(&mut folded, &mut out[i].props);
            }
            out[i].update_type = UpdateType::Enter;
            i = i + 1;
        }
        out
    }

    /// The entries of the indices in `ids` that are not visible.
    fn departed_entities(&self, ids: &BTreeSet<u32>) -> (r: Vec<Entity>)
        requires
            self.wf(),
        ensures
            strictly_increasing(view_keys(entity_views(r@))),
            view_keys(entity_views(r@)).to_set() == ids@.difference(self@.active.dom()),
            forall|i: int|
                0 <= i < r.len() ==> #[trigger] entity_views(r@)[i] == departed_entity(
                    r@[i].entity_index,
                    self@.deleted.contains(r@[i].entity_index),
                ),
    {
        let order = ascending(ids);
        let mut out: Vec<Entity> = Vec::new();
        let mut i: usize = 0;
        proof {
            assert(view_keys(entity_views(out@)).to_set() =~= order@.take(0).to_set().difference(
                self@.active.dom(),
            ));
        }
        while i < order.len()
            invariant
                i <= order.len(),
                self.wf(),
                strictly_increasing(order@),
                strictly_increasing(view_keys(entity_views(out@))),
                forall|j: int|
                    0 <= j < out.len() ==> order@.take(i as int).contains(
                        #[trigger] view_keys(entity_views(out@))[j],
                    ),
                view_keys(entity_views(out@)).to_set() == order@.take(i as int).to_set().difference(
                    self@.active.dom(),
                ),
                forall|j: int|
                    0 <= j < out.len() ==> #[trigger] entity_views(out@)[j] == departed_entity(
                        out@[j].entity_index,
                        self@.deleted.contains(out@[j].entity_index),
                    ),
            decreases order.len() - i,
        {
            let k = order[i];
            let visible = self.entities.get(k).is_some();
            let ghost keys = view_keys(entity_views(out@));
            let ghost seen = order@.take(i as int);
            proof {
                assert(order@.take(i + 1) == seen.push(k));
                seen.lemma_push_to_set_commute(k);
            }
            if !visible {
                let deleted = self.deleted_entities.contains(&k);
                let entity = Entity {
                    entity_index: k,
                    server_class: 0,
                    serial_number: 0,
                    update_type: if deleted {
                        UpdateType::Delete
                    } else {
                        UpdateType::Leave
                    },
                    in_pvs: false,
                    props: Vec::new(),
                    baseline_props: Vec::new(),
                };
                let ghost before = out@;
                out.push(entity);
                proof {
                    let after = view_keys(entity_views(out@));
                    assert(after =~= keys.push(k));
                    assert forall|a: int, b: int| 0 <= a < b < after.len() implies after[a]
                        < after[b] by {
                        if b == after.len() - 1 {
                            assert(seen.contains(keys[a]));
                            let p = choose|p: int| 0 <= p < seen.len() && seen[p] == keys[a];
                            assert(order@[p] < order@[i as int]);
                        } else {
                            assert(keys[a] < keys[b]);
                        }
                    }
                    assert forall|j: int| 0 <= j < out.len() implies order@.take(i + 1).contains(
                        #[trigger] after[j],
                    ) by {
                        if j < keys.len() {
                            assert(seen.contains(keys[j]));
                            let p = choose|p: int| 0 <= p < seen.len() && seen[p] == keys[j];
                            assert(order@.take(i + 1)[p] == keys[j]);
                        } else {
                            assert(order@.take(i + 1)[i as int] == k);
                        }
                    }
                    keys.lemma_push_to_set_commute(k);
                    assert(after.to_set() =~= order@.take(i + 1).to_set().difference(
                        self@.active.dom(),
                    ));
                    assert forall|j: int| 0 <= j < out.len() implies #[trigger] entity_views(
                        out@,
                    )[j] == departed_entity(
                        out@[j].entity_index,
                        self@.deleted.contains(out@[j].entity_index),
                    ) by {
                        if j < before.len() {
                            assert(out@[j] == before[j]);
                            assert(entity_views(out@)[j] == entity_views(before)[j]);
                        } else {
                            assert(entity_views(out@)[j] =~= departed_entity(k, deleted));
                        }
                    }
                }
            } else {
                proof {
                    assert(keys.to_set() =~= order@.take(i + 1).to_set().difference(
                        self@.active.dom(),
                    ));
                    assert forall|j: int| 0 <= j < out.len() implies order@.take(i + 1).contains(
                        #[trigger] keys[j],
                    ) by {
                        assert(seen.contains(keys[j]));
                        let p = choose|p: int| 0 <= p < seen.len() && seen[p] == keys[j];
                        assert(order@.take(i + 1)[p] == keys[j]);
                    }
                }
            }
            i = i + 1;
        }
        proof {
            assert(order@.take(i as int) == order@);
        }
        out
    }

    /// Synthesizes what a fresh decoder needs in order to hold this tracker's
    /// state: two baseline refreshes, a snapshot, and a removal message.
    ///
    /// The refreshes come first, made of the second slot and then of the
    /// first, both at tick `delta_basis_tick - 2`. The snapshot follows one tick
    /// later as a difference against the refresh tick, and the removal message
    /// at `delta_basis_tick` as a difference against the snapshot's tick.
    /// Where the basis tick is smaller than two, the ticks before it stop at
    /// zero.
    pub fn encode(self, baselines: &BaselineSlots, delta_basis_tick: u32) -> (r: (
        Vec<TickedUpdate>,
        TickedUpdate,
        TickedUpdate,
    ))
        requires
            self.wf(),
            slots_valid(baselines@),
        ensures
            r.0.len() == 2,
            r.0[0].tick == ticks_before(delta_basis_tick, 2),
            is_baseline_refresh(r.0[0].update@, baselines@.second, 1, self@.max_entities),
            r.0[1].tick == ticks_before(delta_basis_tick, 2),
            is_baseline_refresh(r.0[1].update@, baselines@.first, 0, self@.max_entities),
            r.1.tick == ticks_before(delta_basis_tick, 1),
            is_snapshot(r.1.update@, self@, baselines@.first, ticks_before(delta_basis_tick, 2)),
            r.2.tick == delta_basis_tick,
            is_removal(r.2.update@, self@, baselines@, ticks_before(delta_basis_tick, 1)),
    {
        let refresh_tick = if delta_basis_tick >= 2 {
            delta_basis_tick - 2
        } else {
            0
        };
        let snapshot_tick = if delta_basis_tick >= 1 {
            delta_basis_tick - 1
        } else {
            0
        };
        let max_entities = self.max_entities;

        // the second slot goes first
        let mut second = encode_entities(
            duplicate_entities(&baselines.second),
            max_entities,
            None,
            Vec::new(),
        );
        second.updated_base_line = true;
        second.base_line = 1;
        let mut first = encode_entities(
            duplicate_entities(&baselines.first),
            max_entities,
            None,
            Vec::new(),
        );
        first.updated_base_line = true;

        // entries for all entities that a baseline knows but that are gone since
        let ids = self.baseline_ids(baselines);
        let departed = self.departed_entities(&ids);
        let removed = ascending(&self.removed_entities);
        let ghost state = self@;
        let visible = Self::sorted_entities(&self.entities);
        let ghost stored = visible@;
        proof {
            lemma_entity_map_dom(stored);
        }
        let snapshot = Self::snapshot_entities(visible, &baselines.first);
        proof {
            let slot = entity_views(baselines.first@);
            let got = entity_views(snapshot@);
            assert(view_keys(got) =~= entity_keys(stored)) by {
                assert forall|i: int| 0 <= i < got.len() implies view_keys(got)[i] == entity_keys(
                    stored,
                )[i] by {
                    assert(snapshot@[i]@ == snapshot_entity(stored[i]@, slot));
                }
            }
            assert forall|i: int| 0 <= i < got.len() implies #[trigger] got[i] == snapshot_entity(
                state.active[got[i].entity_index],
                slot,
            ) by {
                assert(snapshot@[i]@ == snapshot_entity(stored[i]@, slot));
                lemma_entity_at(stored, i);
            }
        }
        let baseline_updates = vec![
            TickedUpdate { tick: refresh_tick, update: second },
            TickedUpdate { tick: refresh_tick, update: first },
        ];
        let entity_update = EntityUpdate {
            entities: snapshot,
            removed_entities: Vec::new(),
            max_entries: max_entities,
            delta: if refresh_tick == 0 {
                None
            } else {
                Some(refresh_tick)
            },
            base_line: 0,
            updated_base_line: false,
        };
        let removed_update = EntityUpdate {
            entities: departed,
            removed_entities: removed,
            max_entries: max_entities,
            delta: if snapshot_tick == 0 {
                None
            } else {
                Some(snapshot_tick)
            },
            base_line: 0,
            updated_base_line: false,
        };
        (
            baseline_updates,
            TickedUpdate { tick: snapshot_tick, update: entity_update },
            TickedUpdate { tick: delta_basis_tick, update: removed_update },
        )
    }
}

} // verus!
