//! The string-table tracker: the last value written to each slot of each
//! table over the packets that precede a cut.

use tf_demo_parser::demo::packet::stringtable::StringTableEntry;
use vstd::prelude::*;

use crate::codec::entry_copy;
use crate::index_set::{lemma_ascending_unique, strictly_increasing};
use crate::model::{DemoMessage, TableEntry, TableUpdate, TableUpdateView};
use crate::sorted_map::SortedMap;

verus! {

/// The tracked slots of one table.
#[derive(Debug)]
pub struct StringTable {
    entries: SortedMap<StringTableEntry<'static>>,
}

impl StringTable {
    /// Slots are stored once each and fit the wire's slot width.
    pub closed spec fn wf(&self) -> bool {
        &&& self.entries.wf()
        &&& forall|k: u32| self.entries@.contains_key(k) ==> k <= 0xffff
    }

    /// Whether `slot` has been written.
    pub closed spec fn has(&self, slot: u16) -> bool {
        self.entries@.contains_key(slot as u32)
    }

    /// What was written to `slot` last.
    pub closed spec fn at(&self, slot: u16) -> StringTableEntry<'static> {
        self.entries@[slot as u32]
    }

    /// Whether no slot has been written.
    fn is_empty(&self) -> (r: bool)
        requires
            self.wf(),
        ensures
            r == !exists|s: u16| self.has(s),
    {
        let n = self.entries.len();
        proof {
            self.entries.lemma_ascending();
            let keys = self.entries.ascending_keys();
            if n > 0 {
                assert(keys.to_set().contains(keys[0]));
                assert(self.has(keys[0] as u16));
            } else {
                if exists|s: u16| self.has(s) {
                    let s = choose|s: u16| self.has(s);
                    assert(keys.to_set().contains(s as u32));
                }
            }
        }
        n == 0
    }

    /// All tracked slots as one update message for table `table_id`.
    fn dump(&self, table_id: u8) -> (r: TableUpdate)
        requires
            self.wf(),
        ensures
            r.table_id == table_id,
            strictly_increasing(entry_slots(r.entries@)),
            forall|s: u16| #[trigger] lists_slot(r@, s) <==> self.has(s),
            forall|j: int|
                0 <= j < r.entries@.len() ==> (#[trigger] r.entries@[j]).entry == entry_copy(
                    self.at(r.entries@[j].slot),
                ),
    {
        let mut entries: Vec<TableEntry> = Vec::new();
        let n = self.entries.len();
        let order = self.entries.keys();
        let ghost keys = self.entries.ascending_keys();
        let ghost values = self.entries.ascending_values();
        proof {
            self.entries.lemma_ascending();
        }
        let mut i: usize = 0;
        while i < n
            invariant
                i <= n,
                n == keys.len(),
                order@ == keys,
                forall|p: int|
                    0 <= p < keys.len() ==> self.entries@[#[trigger] keys[p]] == values[p],
                self.wf(),
                keys == self.entries.ascending_keys(),
                values == self.entries.ascending_values(),
                keys.len() == values.len(),
                keys.to_set() == self.entries@.dom(),
                entries.len() == i,
                entry_slots(entries@) == keys.take(i as int),
                forall|j: int|
                    0 <= j < i ==> (#[trigger] entries@[j]).entry == entry_copy(values[j]),
            decreases n - i,
        {
            let key = order[i];
            proof {
                assert(keys.to_set().contains(keys[i as int]));
            }
            let entry = self.entries.value(key).clone();
            proof {
                assert(key <= 0xffff);
            }
            let slot = key as u16;
            let ghost before = entries@;
            entries.push(TableEntry { slot, entry });
            proof {
                assert(entry_slots(entries@) =~= entry_slots(before).push(key));
                assert(keys.take(i + 1) =~= keys.take(i as int).push(key));
            }
            i = i + 1;
        }
        let r = TableUpdate { table_id, entries };
        proof {
            assert(keys.take(n as int) == keys);
            let slots = entry_slots(r.entries@);
            assert forall|s: u16| #[trigger] lists_slot(r@, s) <==> self.has(s) by {
                if slots.contains(s as u32) {
                    assert(keys.to_set().contains(s as u32));
                }
                if self.has(s) {
                    assert(keys.to_set().contains(s as u32));
                }
            }
            assert forall|j: int| 0 <= j < r.entries@.len() implies (#[trigger] r.entries@[
                j
            ]).entry == entry_copy(self.at(r.entries@[j].slot)) by {
                assert(slots[j] == keys[j]);
                assert(self.entries@[keys[j]] == values[j]);
            }
        }
        r
    }
}

/// The tables after the writes of one update message, taken in order. The
/// tables hold a copy of each entry written.
pub open spec fn upsert_entries(
    m: Map<(u8, u16), StringTableEntry<'static>>,
    table_id: u8,
    entries: Seq<TableEntry>,
) -> Map<(u8, u16), StringTableEntry<'static>>
    decreases entries.len(),
{
    if entries.len() == 0 {
        m
    } else {
        upsert_entries(m, table_id, entries.drop_last()).insert(
            (table_id, entries.last().slot),
            entry_copy(entries.last().entry),
        )
    }
}

/// The slots of the entries of a message, in order.
pub open spec fn entry_slots(entries: Seq<TableEntry>) -> Seq<u32> {
    entries.map_values(|e: TableEntry| e.slot as u32)
}

/// The table identifiers of a list of messages, in order.
pub open spec fn table_ids(updates: Seq<TableUpdateView>) -> Seq<u32> {
    updates.map_values(|u: TableUpdateView| u.table_id as u32)
}

/// The values of a list of update messages, in order.
pub open spec fn update_views(updates: Seq<TableUpdate>) -> Seq<TableUpdateView> {
    updates.map_values(|u: TableUpdate| u@)
}

/// Whether some slot of table `t` is tracked.
pub open spec fn table_tracked(m: Map<(u8, u16), StringTableEntry<'static>>, t: u8) -> bool {
    exists|s: u16| m.contains_key((t, s))
}

/// Whether a message for table `t` is in the list.
pub open spec fn lists_table(updates: Seq<TableUpdateView>, t: u8) -> bool {
    table_ids(updates).contains(t as u32)
}

/// Whether the message writes `slot`.
pub open spec fn lists_slot(update: TableUpdateView, slot: u16) -> bool {
    entry_slots(update.entries).contains(slot as u32)
}

/// `update` carries every tracked slot of its table once, by ascending slot,
/// with a copy of the value held for it.
pub open spec fn is_table_dump(
    update: TableUpdateView,
    m: Map<(u8, u16), StringTableEntry<'static>>,
) -> bool {
    &&& strictly_increasing(entry_slots(update.entries))
    &&& forall|s: u16| #[trigger] lists_slot(update, s) <==> m.contains_key((update.table_id, s))
    &&& forall|j: int|
        0 <= j < update.entries.len() ==> (#[trigger] update.entries[j]).entry == entry_copy(
            m[(update.table_id, update.entries[j].slot)],
        )
}

/// `updates` flattens the tracked state `m`: one message for each table that
/// has a tracked slot, tables by ascending identifier, each message a dump of
/// its table.
pub open spec fn is_flattened(
    updates: Seq<TableUpdateView>,
    m: Map<(u8, u16), StringTableEntry<'static>>,
) -> bool {
    &&& strictly_increasing(table_ids(updates))
    &&& forall|t: u8| #[trigger] lists_table(updates, t) <==> table_tracked(m, t)
    &&& forall|i: int| 0 <= i < updates.len() ==> is_table_dump(#[trigger] updates[i], m)
}

/// Tracks string-table writes.
#[derive(Debug)]
pub struct StringTablesUpdates {
    tables: SortedMap<StringTable>,
}

impl View for StringTablesUpdates {
    type V = Map<(u8, u16), StringTableEntry<'static>>;

    closed spec fn view(&self) -> Map<(u8, u16), StringTableEntry<'static>> {
        Map::new(
            |key: (u8, u16)|
                self.tables@.contains_key(key.0 as u32) && self.tables@[key.0 as u32].has(key.1),
            |key: (u8, u16)| self.tables@[key.0 as u32].at(key.1),
        )
    }
}

impl Default for StringTablesUpdates {
    fn default() -> (r: StringTablesUpdates)
        ensures
            r.wf(),
            r@ == Map::<(u8, u16), StringTableEntry<'static>>::empty(),
    {
        StringTablesUpdates::new()
    }
}

impl StringTablesUpdates {
    /// Tables are stored once each, fit the wire's table width, and are well
    /// formed themselves.
    pub closed spec fn wf(&self) -> bool {
        &&& self.tables.wf()
        &&& forall|k: u32| self.tables@.contains_key(k) ==> k <= 0xff
        &&& forall|k: u32| self.tables@.contains_key(k) ==> (#[trigger] self.tables@[k]).wf()
    }

    /// A tracker that has seen nothing.
    pub fn new() -> (r: StringTablesUpdates)
        ensures
            r.wf(),
            r@ == Map::<(u8, u16), StringTableEntry<'static>>::empty(),
    {
        let r = StringTablesUpdates { tables: SortedMap::new() };
        assert(r@ =~= Map::<(u8, u16), StringTableEntry<'static>>::empty());
        r
    }

    /// Folds the writes of one update message into the tracker.
    pub fn handle_update(&mut self, update: &TableUpdate)
        requires
            old(self).wf(),
        ensures
            final(self).wf(),
            final(self)@ == upsert_entries(old(self)@, update.table_id, update.entries@),
    {
        if update.entries.len() == 0 {
            return ;
        }
        let id = update.table_id as u32;
        let mut table = match self.tables.remove(id) {
            Some(table) => table,
            None => StringTable { entries: SortedMap::new() },
        };
        let ghost others = self.tables@;
        let ghost start = table;
        let ghost entries = update.entries@;
        let ghost goal = old(self)@;
        let mut i: usize = 0;
        while i < update.entries.len()
            invariant
                i <= update.entries.len(),
                entries == update.entries@,
                table.wf(),
                forall|s: u16|
                    table.has(s) <==> start.has(s) || exists|j: int|
                        0 <= j < i && entries[j].slot == s,
                forall|s: u16|
                    table.has(s) ==> table.at(s) == upsert_entries(
                        Map::<(u8, u16), StringTableEntry<'static>>::empty().insert(
                            (update.table_id, s),
                            start.at(s),
                        ),
                        update.table_id,
                        entries.take(i as int),
                    )[(update.table_id, s)],
            decreases update.entries.len() - i,
        {
            let slot = update.entries[i].slot;
            let entry = update.entries[i].entry.clone();
            let ghost before = table;
            table.entries.insert(slot as u32, entry);
            proof {
                assert(entries.take(i + 1).drop_last() == entries.take(i as int));
                assert(entries.take(i + 1).last() == entries[i as int]);
                assert forall|s: u16|
                    table.has(s) <==> start.has(s) || exists|j: int|
                        0 <= j < i + 1 && entries[j].slot == s by {
                    if table.has(s) {
                        if s == slot {
                            assert(entries[i as int].slot == s);
                        } else {
                            assert(before.has(s));
                            if !start.has(s) {
                                let j = choose|j: int| 0 <= j < i && entries[j].slot == s;
                                assert(0 <= j < i + 1 && entries[j].slot == s);
                            }
                        }
                    }
                    if exists|j: int| 0 <= j < i + 1 && entries[j].slot == s {
                        let j = choose|j: int| 0 <= j < i + 1 && entries[j].slot == s;
                        if j < i {
                            assert(before.has(s));
                        }
                    }
                }
            }
            i = i + 1;
        }
        self.tables.insert(id, table);
        proof {
            assert(entries.take(i as int) == entries);
            let want = upsert_entries(goal, update.table_id, entries);
            assert forall|key: (u8, u16)| self@.contains_key(key) <==> want.contains_key(key) by {
                lemma_upsert_dom(goal, update.table_id, entries, key);
            }
            assert forall|key: (u8, u16)| self@.contains_key(key) implies self@[key]
                == want[key] by {
                lemma_upsert_dom(goal, update.table_id, entries, key);
                if key.0 == update.table_id {
                    lemma_upsert_value(
                        goal,
                        Map::<(u8, u16), StringTableEntry<'static>>::empty().insert(
                            (update.table_id, key.1),
                            start.at(key.1),
                        ),
                        update.table_id,
                        entries,
                        key,
                    );
                } else {
                    lemma_upsert_other(goal, update.table_id, entries, key);
                }
            }
            assert(self@ =~= want);
        }
    }

    /// One update message for each table that has a tracked slot, tables by
    /// ascending identifier, each with every tracked slot of its table by
    /// ascending slot.
    pub fn encode(self) -> (r: Vec<TableUpdate>)
        requires
            self.wf(),
        ensures
            is_flattened(update_views(r@), self@),
    {
        let mut out: Vec<TableUpdate> = Vec::new();
        let n = self.tables.len();
        let order = self.tables.keys();
        let ghost keys = self.tables.ascending_keys();
        let ghost values = self.tables.ascending_values();
        proof {
            self.tables.lemma_ascending();
        }
        let mut i: usize = 0;
        while i < n
            invariant
                i <= n,
                n == keys.len(),
                order@ == keys,
                self.wf(),
                keys == self.tables.ascending_keys(),
                values == self.tables.ascending_values(),
                keys.len() == values.len(),
                strictly_increasing(keys),
                keys.to_set() == self.tables@.dom(),
                forall|p: int| 0 <= p < keys.len() ==> self.tables@[#[trigger] keys[p]] == values[p],
                strictly_increasing(table_ids(update_views(out@))),
                forall|j: int|
                    0 <= j < out.len() ==> keys.take(i as int).contains(
                        #[trigger] table_ids(update_views(out@))[j],
                    ),
                forall|p: int|
                    0 <= p < i && (exists|s: u16| values[p].has(s)) ==> table_ids(update_views(out@)).contains(
                        #[trigger] keys[p],
                    ),
                forall|j: int| 0 <= j < out.len() ==> is_table_dump(#[trigger] out@[j]@, self@),
                forall|j: int| 0 <= j < out.len() ==> (#[trigger] out@[j]).entries@.len() > 0,
            decreases n - i,
        {
            let key = order[i];
            proof {
                assert(keys.to_set().contains(keys[i as int]));
            }
            let table = self.tables.value(key);
            proof {
                assert(self.tables@.contains_key(key));
                assert(self.tables@[key] == *table);
                assert(key <= 0xff);
            }
            let ghost ids = table_ids(update_views(out@));
            let ghost seen = keys.take(i as int);
            if !table.is_empty() {
                let id = key as u8;
                let update = table.dump(id);
                let ghost before = out@;
                proof {
                    assert(update.table_id as u32 == key);
                    assert forall|s: u16|
                        #[trigger] lists_slot(update@, s) <==> self@.contains_key(
                            (update.table_id, s),
                        ) by {}
                    assert forall|j: int| 0 <= j < update.entries@.len() implies (
                    #[trigger] update.entries@[j]).entry == entry_copy(
                        self@[(update.table_id, update.entries@[j].slot)],
                    ) by {
                        let slot = update.entries@[j].slot;
                        assert(entry_slots(update.entries@)[j] == slot as u32);
                        assert(lists_slot(update@, slot));
                        assert(self@.contains_key((update.table_id, slot)));
                    }
                    assert(is_table_dump(update@, self@));
                    let some = choose|s: u16| table.has(s);
                    assert(lists_slot(update@, some));
                    assert(update.entries@.len() > 0);
                }
                out.push(update);
                proof {
                    let after = table_ids(update_views(out@));
                    assert(after =~= ids.push(key));
                    assert forall|a: int, b: int| 0 <= a < b < after.len() implies after[a]
                        < after[b] by {
                        if b == after.len() - 1 {
                            assert(seen.contains(ids[a]));
                            let p = choose|p: int| 0 <= p < seen.len() && seen[p] == ids[a];
                            assert(keys[p] < keys[i as int]);
                        } else {
                            assert(ids[a] < ids[b]);
                        }
                    }
                    assert forall|j: int| 0 <= j < out.len() implies keys.take(i + 1).contains(
                        #[trigger] after[j],
                    ) by {
                        if j < ids.len() {
                            assert(seen.contains(ids[j]));
                            let p = choose|p: int| 0 <= p < seen.len() && seen[p] == ids[j];
                            assert(keys.take(i + 1)[p] == ids[j]);
                        } else {
                            assert(keys.take(i + 1)[i as int] == key);
                        }
                    }
                    assert forall|p: int|
                        0 <= p < i + 1 && (exists|s: u16| values[p].has(s)) implies after.contains(
                        #[trigger] keys[p],
                    ) by {
                        if p < i {
                            assert(ids.contains(keys[p]));
                            let j = choose|j: int| 0 <= j < ids.len() && ids[j] == keys[p];
                            assert(after[j] == keys[p]);
                        } else {
                            assert(after[after.len() - 1] == key);
                        }
                    }
                    assert forall|j: int| 0 <= j < out.len() implies is_table_dump(
                        #[trigger] out@[j]@,
                        self@,
                    ) by {
                        if j < before.len() {
                            assert(out@[j] == before[j]);
                        }
                    }
                }
            } else {
                proof {
                    assert forall|j: int| 0 <= j < out.len() implies keys.take(i + 1).contains(
                        #[trigger] ids[j],
                    ) by {
                        assert(seen.contains(ids[j]));
                        let p = choose|p: int| 0 <= p < seen.len() && seen[p] == ids[j];
                        assert(keys.take(i + 1)[p] == ids[j]);
                    }
                }
            }
            i = i + 1;
        }
        proof {
            let ids = table_ids(update_views(out@));
            assert(keys.take(n as int) == keys);
            let views = update_views(out@);
            assert forall|t: u8| #[trigger] lists_table(views, t) <==> table_tracked(self@, t) by {
                if ids.contains(t as u32) {
                    let j = choose|j: int| 0 <= j < ids.len() && ids[j] == t as u32;
                    assert(is_table_dump(out@[j]@, self@));
                    assert(out@[j].table_id == t);
                    lemma_listed_has_slot(out@[j]@, self@);
                }
                if table_tracked(self@, t) {
                    let s = choose|s: u16| self@.contains_key((t, s));
                    assert(keys.to_set().contains(t as u32));
                    let p = choose|p: int| 0 <= p < keys.len() && keys[p] == t as u32;
                    assert(self.tables@[keys[p]] == values[p]);
                    assert(values[p].has(s));
                }
            }
        }
        out
    }

    /// Folds one message into the tracker: a string-table update is applied,
    /// any other message changes nothing.
    pub fn handle_message(&mut self, message: &DemoMessage)
        requires
            old(self).wf(),
        ensures
            final(self).wf(),
            final(self)@ == match *message {
                DemoMessage::TableUpdate(update) => upsert_entries(
                    old(self)@,
                    update.table_id,
                    update.entries@,
                ),
                _ => old(self)@,
            },
    {
        match message {
            DemoMessage::TableUpdate(update) => {
                self.handle_update(update);
            },
            _ => {},
        }
    }
}

/// The tracked state leaves one list of update messages only.
pub proof fn lemma_flattened_determined(
    a: Seq<TableUpdateView>,
    b: Seq<TableUpdateView>,
    m: Map<(u8, u16), StringTableEntry<'static>>,
)
    requires
        is_flattened(a, m),
        is_flattened(b, m),
    ensures
        a == b,
{
    let ids_a = table_ids(a);
    let ids_b = table_ids(b);
    assert forall|v: u32| ids_a.to_set().contains(v) <==> ids_b.to_set().contains(v) by {
        if ids_a.contains(v) {
            let i = choose|i: int| 0 <= i < ids_a.len() && ids_a[i] == v;
            let t = a[i].table_id;
            assert(lists_table(a, t));
            assert(lists_table(b, t));
        }
        if ids_b.contains(v) {
            let i = choose|i: int| 0 <= i < ids_b.len() && ids_b[i] == v;
            let t = b[i].table_id;
            assert(lists_table(b, t));
            assert(lists_table(a, t));
        }
    }
    assert(ids_a.to_set() =~= ids_b.to_set());
    lemma_ascending_unique(ids_a, ids_b);
    assert(a.len() == ids_a.len() && b.len() == ids_b.len());
    assert forall|i: int| 0 <= i < a.len() implies a[i] == b[i] by {
        assert(ids_a[i] == ids_b[i]);
        assert(a[i].table_id == b[i].table_id);
        assert(is_table_dump(a[i], m) && is_table_dump(b[i], m));
        lemma_dump_determined(a[i], b[i], m);
    }
    assert(a =~= b);
}

/// The tracked state leaves one dump of a table only.
proof fn lemma_dump_determined(
    a: TableUpdateView,
    b: TableUpdateView,
    m: Map<(u8, u16), StringTableEntry<'static>>,
)
    requires
        a.table_id == b.table_id,
        is_table_dump(a, m),
        is_table_dump(b, m),
    ensures
        a == b,
{
    let slots_a = entry_slots(a.entries);
    let slots_b = entry_slots(b.entries);
    assert forall|v: u32| slots_a.to_set().contains(v) <==> slots_b.to_set().contains(v) by {
        if slots_a.contains(v) {
            let i = choose|i: int| 0 <= i < slots_a.len() && slots_a[i] == v;
            let s = a.entries[i].slot;
            assert(lists_slot(a, s));
            assert(lists_slot(b, s));
        }
        if slots_b.contains(v) {
            let i = choose|i: int| 0 <= i < slots_b.len() && slots_b[i] == v;
            let s = b.entries[i].slot;
            assert(lists_slot(b, s));
            assert(lists_slot(a, s));
        }
    }
    assert(slots_a.to_set() =~= slots_b.to_set());
    lemma_ascending_unique(slots_a, slots_b);
    assert(a.entries.len() == slots_a.len() && b.entries.len() == slots_b.len());
    assert forall|i: int| 0 <= i < a.entries.len() implies a.entries[i] == b.entries[i] by {
        assert(slots_a[i] == slots_b[i]);
        assert(a.entries[i].slot == b.entries[i].slot);
    }
    assert(a.entries =~= b.entries);
}

/// A dump that is not empty is of a table with a tracked slot.
proof fn lemma_listed_has_slot(
    update: TableUpdateView,
    m: Map<(u8, u16), StringTableEntry<'static>>,
)
    requires
        is_table_dump(update, m),
        update.entries.len() > 0,
    ensures
        table_tracked(m, update.table_id),
{
    let slot = update.entries[0].slot;
    assert(entry_slots(update.entries)[0] == slot as u32);
    assert(lists_slot(update, slot));
}

/// A key is in the tables after a message if it was there before or the
/// message writes it.
pub(crate) proof fn lemma_upsert_dom(
    m: Map<(u8, u16), StringTableEntry<'static>>,
    table_id: u8,
    entries: Seq<TableEntry>,
    key: (u8, u16),
)
    ensures
        upsert_entries(m, table_id, entries).contains_key(key) <==> m.contains_key(key) || (key.0
            == table_id && exists|j: int| 0 <= j < entries.len() && entries[j].slot == key.1),
    decreases entries.len(),
{
    if entries.len() > 0 {
        let rest = entries.drop_last();
        lemma_upsert_dom(m, table_id, rest, key);
        if key.0 == table_id && exists|j: int| 0 <= j < rest.len() && rest[j].slot == key.1 {
            let j = choose|j: int| 0 <= j < rest.len() && rest[j].slot == key.1;
            assert(entries[j].slot == key.1);
        }
        if key.0 == table_id && exists|j: int| 0 <= j < entries.len() && entries[j].slot == key.1 {
            let j = choose|j: int| 0 <= j < entries.len() && entries[j].slot == key.1;
            if j < rest.len() {
                assert(rest[j].slot == key.1);
            }
        }
        if key == (table_id, entries.last().slot) {
            assert(entries[entries.len() - 1].slot == key.1);
        }
    }
}

/// A message leaves the slots of other tables as they are.
pub(crate) proof fn lemma_upsert_other(
    m: Map<(u8, u16), StringTableEntry<'static>>,
    table_id: u8,
    entries: Seq<TableEntry>,
    key: (u8, u16),
)
    requires
        key.0 != table_id,
    ensures
        upsert_entries(m, table_id, entries).contains_key(key) == m.contains_key(key),
        upsert_entries(m, table_id, entries)[key] == m[key],
    decreases entries.len(),
{
    if entries.len() > 0 {
        lemma_upsert_other(m, table_id, entries.drop_last(), key);
    }
}

/// What a message makes of a slot depends only on what the slot held.
proof fn lemma_upsert_value(
    a: Map<(u8, u16), StringTableEntry<'static>>,
    b: Map<(u8, u16), StringTableEntry<'static>>,
    table_id: u8,
    entries: Seq<TableEntry>,
    key: (u8, u16),
)
    requires
        a.contains_key(key) ==> b.contains_key(key) && a[key] == b[key],
        a.contains_key(key) || exists|j: int| 0 <= j < entries.len() && entries[j].slot == key.1,
        key.0 == table_id,
    ensures
        upsert_entries(a, table_id, entries)[key] == upsert_entries(b, table_id, entries)[key],
    decreases entries.len(),
{
    if entries.len() > 0 {
        let rest = entries.drop_last();
        if key != (table_id, entries.last().slot) {
            if !a.contains_key(key) {
                let j = choose|j: int| 0 <= j < entries.len() && entries[j].slot == key.1;
                assert(rest[j].slot == key.1);
            }
            lemma_upsert_value(a, b, table_id, rest, key);
        }
    }
}

} // verus!
