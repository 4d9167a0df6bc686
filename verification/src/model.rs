//! Plain-value mirror of the parts of a capture that the cutter reads and writes.

use tf_demo_parser::demo::message::Message;
use tf_demo_parser::demo::packet::message::MessagePacketMeta;
use tf_demo_parser::demo::packet::stringtable::StringTableEntry;
use tf_demo_parser::demo::packet::Packet;
use tf_demo_parser::demo::sendprop::SendPropValue;
use vstd::prelude::*;

use crate::entity_map::view_keys;
use crate::index_set::strictly_increasing;

verus! {

/// How an entity entry of an update message changes the receiver's entity set.
#[derive(Clone, Copy, Debug, PartialEq, Eq, Structural)]
pub enum UpdateType {
    /// The entity becomes visible; class and serial number travel with it.
    Enter,
    /// The entity stays visible; only changed properties travel with it.
    Preserve,
    /// The entity leaves the visible set but still exists.
    Leave,
    /// The entity is destroyed.
    Delete,
}

/// One networked property of an entity.
///
/// `identifier` is the key under which properties are merged. The value is
/// carried as the codec decoded it and is never inspected here.
#[derive(Clone, Debug, PartialEq)]
pub struct Prop {
    pub index: u32,
    pub identifier: u64,
    pub value: SendPropValue,
}

impl Prop {
    /// A copy of this property.
    pub fn duplicate(&self) -> (r: Prop)
        ensures
            r == *self,
    {
        Prop { index: self.index, identifier: self.identifier, value: self.value.clone() }
    }
}

/// A copy of a property list.
pub fn duplicate_props(props: &Vec<Prop>) -> (r: Vec<Prop>)
    ensures
        r@ == props@,
{
    let mut out: Vec<Prop> = Vec::new();
    let mut i: usize = 0;
    while i < props.len()
        invariant
            i <= props.len(),
            out@ == props@.take(i as int),
        decreases props.len() - i,
    {
        out.push(props[i].duplicate());
        proof {
            assert(props@.take(i + 1) == props@.take(i as int).push(props@[i as int]));
        }
        i = i + 1;
    }
    out
}

/// One entity as an update message carries it, and as the tracker stores it.
#[derive(Clone, Debug, PartialEq)]
pub struct Entity {
    pub entity_index: u32,
    pub server_class: u16,
    pub serial_number: u32,
    pub update_type: UpdateType,
    pub in_pvs: bool,
    /// Properties in insertion order, merged by `identifier`.
    pub props: Vec<Prop>,
    /// Properties that the entity takes from its baseline rather than from
    /// its own updates.
    pub baseline_props: Vec<Prop>,
}

/// Mathematical value of an [`Entity`].
pub struct EntityView {
    pub entity_index: u32,
    pub server_class: u16,
    pub serial_number: u32,
    pub update_type: UpdateType,
    pub in_pvs: bool,
    pub props: Seq<Prop>,
    pub baseline_props: Seq<Prop>,
}

impl View for Entity {
    type V = EntityView;

    open spec fn view(&self) -> EntityView {
        EntityView {
            entity_index: self.entity_index,
            server_class: self.server_class,
            serial_number: self.serial_number,
            update_type: self.update_type,
            in_pvs: self.in_pvs,
            props: self.props@,
            baseline_props: self.baseline_props@,
        }
    }
}

impl Entity {
    /// A copy of this entity.
    pub fn duplicate(&self) -> (r: Entity)
        ensures
            r@ == self@,
    {
        Entity {
            entity_index: self.entity_index,
            server_class: self.server_class,
            serial_number: self.serial_number,
            update_type: self.update_type,
            in_pvs: self.in_pvs,
            props: duplicate_props(&self.props),
            baseline_props: duplicate_props(&self.baseline_props),
        }
    }
}

/// The values of a list of entities, in order.
pub open spec fn entity_views(s: Seq<Entity>) -> Seq<EntityView> {
    s.map_values(|e: Entity| e@)
}

/// A copy of an entity list.
pub fn duplicate_entities(entities: &Vec<Entity>) -> (r: Vec<Entity>)
    ensures
        entity_views(r@) == entity_views(entities@),
{
    let mut out: Vec<Entity> = Vec::new();
    let mut i: usize = 0;
    while i < entities.len()
        invariant
            i <= entities.len(),
            entity_views(out@) == entity_views(entities@).take(i as int),
        decreases entities.len() - i,
    {
        out.push(entities[i].duplicate());
        proof {
            let all = entity_views(entities@);
            assert(entity_views(out@) =~= all.take(i as int).push(all[i as int]));
            assert(all.take(i + 1) =~= all.take(i as int).push(all[i as int]));
        }
        i = i + 1;
    }
    proof {
        assert(entity_views(entities@).take(i as int) =~= entity_views(entities@));
    }
    out
}

/// An entity-update message.
#[derive(Clone, Debug, PartialEq)]
pub struct EntityUpdate {
    /// Entity entries, by ascending index on the wire.
    pub entities: Vec<Entity>,
    /// Indices that the message evicts, apart from its entity entries.
    pub removed_entities: Vec<u32>,
    /// Number of entity slots that the sender announces.
    pub max_entries: u16,
    /// Basis tick that the message is a difference against, if any.
    pub delta: Option<u32>,
    /// Baseline slot that the message reads, 0 or 1.
    pub base_line: u8,
    /// Whether the receiver refreshes its other baseline slot from this message.
    pub updated_base_line: bool,
}

/// Mathematical value of an [`EntityUpdate`].
pub struct EntityUpdateView {
    pub entities: Seq<EntityView>,
    pub removed_entities: Seq<u32>,
    pub max_entries: u16,
    pub delta: Option<u32>,
    pub base_line: u8,
    pub updated_base_line: bool,
}

/// An update message together with the server tick of the packet that is to
/// carry it.
#[derive(Clone, Debug, PartialEq)]
pub struct TickedUpdate {
    pub tick: u32,
    pub update: EntityUpdate,
}

/// The two baseline slots of the decode context: for each slot the entities
/// that it holds a default state for.
#[derive(Clone, Debug, PartialEq)]
pub struct BaselineSlots {
    pub first: Vec<Entity>,
    pub second: Vec<Entity>,
}

/// Mathematical value of a [`BaselineSlots`].
pub struct BaselineSlotsView {
    pub first: Seq<EntityView>,
    pub second: Seq<EntityView>,
}

/// A baseline slot holds each index once, by ascending index.
pub open spec fn slot_valid(slot: Seq<EntityView>) -> bool {
    strictly_increasing(view_keys(slot))
}

/// Both baseline slots hold each index once, by ascending index.
pub open spec fn slots_valid(slots: BaselineSlotsView) -> bool {
    slot_valid(slots.first) && slot_valid(slots.second)
}

/// Whether the entities stand by ascending index, each index once.
pub fn is_valid_slot(slot: &Vec<Entity>) -> (r: bool)
    ensures
        r == slot_valid(entity_views(slot@)),
{
    let ghost keys = view_keys(entity_views(slot@));
    if slot.len() == 0 {
        return true;
    }
    let mut i: usize = 1;
    while i < slot.len()
        invariant
            1 <= i <= slot.len(),
            keys == view_keys(entity_views(slot@)),
            forall|a: int, b: int| 0 <= a < b < i ==> keys[a] < keys[b],
        decreases slot.len() - i,
    {
        if slot[i - 1].entity_index >= slot[i].entity_index {
            proof {
                assert(!(keys[i - 1] < keys[i as int]));
            }
            return false;
        }
        proof {
            assert forall|a: int, b: int| 0 <= a < b < i + 1 implies keys[a] < keys[b] by {
                if b == i && a < i - 1 {
                    assert(keys[a] < keys[i - 1]);
                }
            }
        }
        i = i + 1;
    }
    true
}

impl BaselineSlots {
    /// Whether both slots hold each index once, by ascending index.
    pub fn is_valid(&self) -> (r: bool)
        ensures
            r == slots_valid(self@),
    {
        is_valid_slot(&self.first) && is_valid_slot(&self.second)
    }
}

impl View for BaselineSlots {
    type V = BaselineSlotsView;

    open spec fn view(&self) -> BaselineSlotsView {
        BaselineSlotsView {
            first: entity_views(self.first@),
            second: entity_views(self.second@),
        }
    }
}

impl View for EntityUpdate {
    type V = EntityUpdateView;

    open spec fn view(&self) -> EntityUpdateView {
        EntityUpdateView {
            entities: entity_views(self.entities@),
            removed_entities: self.removed_entities@,
            max_entries: self.max_entries,
            delta: self.delta,
            base_line: self.base_line,
            updated_base_line: self.updated_base_line,
        }
    }
}

/// One written slot of a string table.
#[derive(Clone, Debug, PartialEq)]
pub struct TableEntry {
    pub slot: u16,
    /// The entry as the codec decoded it; it is carried, never inspected.
    pub entry: StringTableEntry<'static>,
}

/// A string-table update message: slots of one table and what is written
/// to them, in the order of writing.
#[derive(Clone, Debug, PartialEq)]
pub struct TableUpdate {
    pub table_id: u8,
    pub entries: Vec<TableEntry>,
}

/// Mathematical value of a [`TableUpdate`].
pub struct TableUpdateView {
    pub table_id: u8,
    pub entries: Seq<TableEntry>,
}

impl View for TableUpdate {
    type V = TableUpdateView;

    open spec fn view(&self) -> TableUpdateView {
        TableUpdateView { table_id: self.table_id, entries: self.entries@ }
    }
}

/// The largest entity index that the wire carries.
pub const MAX_ENTITY_INDEX: u32 = 2047;

/// The user-message kind of closed captions.
pub const CLOSE_CAPTION: u8 = 14;

/// One message of a packet. What the cutter never reads stays as the codec
/// decoded it.
#[derive(Clone, Debug, PartialEq)]
pub enum DemoMessage {
    /// The server tick of the packet.
    NetTick { tick: u32, frame_time: u16, std_dev: u16 },
    Entities(EntityUpdate),
    TableUpdate(TableUpdate),
    /// A user message of the given kind.
    User { kind: u8, raw: Message<'static> },
    Other { raw: Message<'static> },
}

/// Mathematical value of a [`DemoMessage`].
pub enum DemoMessageView {
    NetTick { tick: u32, frame_time: u16, std_dev: u16 },
    Entities(EntityUpdateView),
    TableUpdate(TableUpdateView),
    User { kind: u8, raw: Message<'static> },
    Other { raw: Message<'static> },
}

impl View for DemoMessage {
    type V = DemoMessageView;

    open spec fn view(&self) -> DemoMessageView {
        match *self {
            DemoMessage::NetTick { tick, frame_time, std_dev } => DemoMessageView::NetTick {
                tick,
                frame_time,
                std_dev,
            },
            DemoMessage::Entities(update) => DemoMessageView::Entities(update@),
            DemoMessage::TableUpdate(update) => DemoMessageView::TableUpdate(update@),
            DemoMessage::User { kind, raw } => DemoMessageView::User { kind, raw },
            DemoMessage::Other { raw } => DemoMessageView::Other { raw },
        }
    }
}

/// The values of a list of messages, in order.
pub open spec fn message_views(s: Seq<DemoMessage>) -> Seq<DemoMessageView> {
    s.map_values(|m: DemoMessage| m@)
}

/// The kinds of packet in a capture.
#[derive(Clone, Copy, Debug, PartialEq, Eq, Structural)]
pub enum PacketKind {
    Signon,
    Message,
    SyncTick,
    ConsoleCmd,
    UserCmd,
    DataTables,
    Stop,
    StringTables,
}

/// One packet of a capture.
#[derive(Clone, Debug, PartialEq)]
pub enum DemoPacket {
    /// A message packet, opened up.
    Messages { tick: u32, messages: Vec<DemoMessage>, meta: Option<MessagePacketMeta> },
    /// A packet of any other kind, held as the codec has it. `tick` is the
    /// tick that the packet is to be written with.
    Raw { kind: PacketKind, tick: u32, raw: Packet<'static> },
}

/// Mathematical value of a [`DemoPacket`].
pub enum DemoPacketView {
    Messages { tick: u32, messages: Seq<DemoMessageView>, meta: Option<MessagePacketMeta> },
    Raw { kind: PacketKind, tick: u32, raw: Packet<'static> },
}

impl View for DemoPacket {
    type V = DemoPacketView;

    open spec fn view(&self) -> DemoPacketView {
        match *self {
            DemoPacket::Messages { tick, messages, meta } => DemoPacketView::Messages {
                tick,
                messages: message_views(messages@),
                meta,
            },
            DemoPacket::Raw { kind, tick, raw } => DemoPacketView::Raw { kind, tick, raw },
        }
    }
}

impl DemoPacketView {
    /// The tick of the packet.
    pub open spec fn tick(self) -> u32 {
        match self {
            DemoPacketView::Messages { tick, .. } => tick,
            DemoPacketView::Raw { tick, .. } => tick,
        }
    }

    /// The kind of the packet.
    pub open spec fn kind(self) -> PacketKind {
        match self {
            DemoPacketView::Messages { .. } => PacketKind::Message,
            DemoPacketView::Raw { kind, .. } => kind,
        }
    }

    /// The packet with another tick.
    pub open spec fn with_tick(self, tick: u32) -> DemoPacketView {
        match self {
            DemoPacketView::Messages { messages, meta, .. } => DemoPacketView::Messages {
                tick,
                messages,
                meta,
            },
            DemoPacketView::Raw { kind, raw, .. } => DemoPacketView::Raw { kind, tick, raw },
        }
    }
}

impl DemoPacket {
    /// The tick of the packet.
    pub fn tick(&self) -> (r: u32)
        ensures
            r == self@.tick(),
    {
        match self {
            DemoPacket::Messages { tick, .. } => *tick,
            DemoPacket::Raw { tick, .. } => *tick,
        }
    }

    /// The kind of the packet.
    pub fn kind(&self) -> (r: PacketKind)
        ensures
            r == self@.kind(),
    {
        match self {
            DemoPacket::Messages { .. } => PacketKind::Message,
            DemoPacket::Raw { kind, .. } => *kind,
        }
    }
}

} // verus!
