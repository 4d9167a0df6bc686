//! Between the codec's packets and their plain mirror in [`crate::model`].
//!
//! The codec's values are opaque here. What the boundary in
//! [`crate::codec`] names of them is put together into the mirror of a
//! packet as it is read, and into the codec's packet for a mirror as it is
//! written, and the functions that do the work are held to that.

use tf_demo_parser::demo::message::packetentities::{PacketEntitiesMessage, PacketEntity};
use tf_demo_parser::demo::message::Message;
use tf_demo_parser::demo::packet::Packet;
use vstd::prelude::*;

use crate::codec::{
    baseline_entities, baseline_props_of, codec_entity, codec_kind, codec_props, entities_in,
    entity_baseline_props, entity_fields, entity_kind, entity_kind_of, entity_props,
    entity_props_of, entity_scalars, entity_update_entities, entity_update_fields,
    entity_update_message, entity_update_of, entity_update_removed, message_copy,
    message_packet, message_packet_parts, net_tick_fields, net_tick_in, net_tick_message,
    packet_copy, packet_kind, packet_kind_of, packet_messages, packet_tick, packet_tick_of,
    packet_with_tick, raw_entity, raw_kind, raw_net_tick, raw_packet, raw_props, raw_table,
    raw_update, reticked, slot_entities, table_in, table_mirror, table_update_message,
    table_update_of, table_update_parts, taken, update_entities, update_fields, update_removed,
    user_kind_in, user_message_kind, DecodeContext, Fed,
};
use crate::model::{
    entity_views, message_views, BaselineSlots, BaselineSlotsView, DemoMessage, DemoMessageView,
    DemoPacket, DemoPacketView, Entity, EntityUpdate, EntityUpdateView, EntityView, Prop,
    TableUpdate, UpdateType, MAX_ENTITY_INDEX,
};

verus! {

/// The mirror of an entity entry as a context that has taken in `fed` reads
/// it. An entering entity takes its baseline properties from the context,
/// any other has none.
pub open spec fn entity_read(entity: PacketEntity, fed: Fed) -> EntityView {
    let fields = entity_scalars(entity);
    EntityView {
        entity_index: fields.0,
        server_class: fields.1,
        serial_number: fields.2,
        update_type: entity_kind_of(entity),
        in_pvs: fields.3,
        props: entity_props_of(entity),
        baseline_props: if entity_kind_of(entity) == UpdateType::Enter {
            baseline_props_of(entity, fed)
        } else {
            Seq::empty()
        },
    }
}

/// The mirrors of a list of entity entries, in order.
pub open spec fn entities_read(entities: Seq<PacketEntity>, fed: Fed) -> Seq<EntityView> {
    entities.map_values(|e: PacketEntity| entity_read(e, fed))
}

/// The mirror of an entity update.
pub open spec fn update_read(update: PacketEntitiesMessage, fed: Fed) -> EntityUpdateView {
    let fields = update_fields(update);
    EntityUpdateView {
        entities: entities_read(update_entities(update), fed),
        removed_entities: update_removed(update),
        max_entries: fields.0,
        delta: fields.1,
        base_line: if fields.2 {
            1
        } else {
            0
        },
        updated_base_line: fields.3,
    }
}

/// The mirror of a message. A message that is not opened up is held as the
/// copy that the codec makes of it.
pub open spec fn message_read(message: Message<'static>, fed: Fed) -> DemoMessageView {
    if let Some(fields) = net_tick_in(message) {
        DemoMessageView::NetTick { tick: fields.0, frame_time: fields.1, std_dev: fields.2 }
    } else if let Some(update) = entities_in(message) {
        DemoMessageView::Entities(update_read(update, fed))
    } else if let Some(update) = table_in(message) {
        DemoMessageView::TableUpdate(table_mirror(update))
    } else if let Some(kind) = user_kind_in(message) {
        DemoMessageView::User { kind, raw: message_copy(message) }
    } else {
        DemoMessageView::Other { raw: message_copy(message) }
    }
}

/// The mirrors of a list of messages, in order.
pub open spec fn messages_read(messages: Seq<Message<'static>>, fed: Fed) -> Seq<DemoMessageView> {
    messages.map_values(|m: Message<'static>| message_read(m, fed))
}

/// The mirror of a packet. Only message packets are opened up; any other
/// is held as the copy that the codec makes of it.
pub open spec fn packet_read(packet: Packet<'static>, fed: Fed) -> DemoPacketView {
    match packet_messages(packet) {
        Some(held) => DemoPacketView::Messages {
            tick: packet_tick_of(packet),
            messages: messages_read(held.0, fed),
            meta: Some(held.1),
        },
        None => DemoPacketView::Raw {
            kind: packet_kind_of(packet),
            tick: packet_tick_of(packet),
            raw: packet_copy(packet),
        },
    }
}

/// The mirror of the two baseline slots of a context that has taken in
/// `fed`.
pub open spec fn slots_read(fed: Fed) -> BaselineSlotsView {
    BaselineSlotsView {
        first: entities_read(slot_entities(fed, false), fed),
        second: entities_read(slot_entities(fed, true), fed),
    }
}

/// The codec's entity entry for an entity of an update with the given basis
/// tick and baseline slot. As the codec reads it, only an entering entity
/// names the slot of its message.
pub open spec fn entity_written(entity: EntityView, delta: Option<u32>, base_line: u8) -> PacketEntity {
    raw_entity(
        entity,
        raw_kind(entity.update_type),
        raw_props(entity.props),
        delta,
        second_slot(entity.update_type, base_line),
    )
}

/// The codec's message for an entity update.
pub open spec fn update_written(update: EntityUpdateView) -> Message<'static> {
    raw_update(
        update.entities.map_values(
            |e: EntityView| entity_written(e, update.delta, update.base_line),
        ),
        update,
        update.base_line != 0,
    )
}

/// The codec's message for a message. One that was not opened up is
/// written as a copy of what is held.
pub open spec fn message_written(message: DemoMessageView) -> Message<'static> {
    match message {
        DemoMessageView::NetTick { tick, frame_time, std_dev } => raw_net_tick(
            tick,
            frame_time,
            std_dev,
        ),
        DemoMessageView::Entities(update) => update_written(update),
        DemoMessageView::TableUpdate(update) => raw_table(update),
        DemoMessageView::User { raw, .. } => message_copy(raw),
        DemoMessageView::Other { raw } => message_copy(raw),
    }
}

/// The codec's packet for a packet. One that was not opened up is written
/// as a copy of what is held, with the tick of the mirror.
pub open spec fn packet_written(packet: DemoPacketView) -> Packet<'static> {
    match packet {
        DemoPacketView::Messages { tick, messages, meta } => raw_packet(
            tick,
            messages.map_values(|m: DemoMessageView| message_written(m)),
            meta,
        ),
        DemoPacketView::Raw { tick, raw, .. } => reticked(raw, tick),
    }
}

/// The mirror of an entity entry. An entering entity takes its baseline
/// properties from the context.
pub(crate) fn read_entity(entity: &PacketEntity, context: &DecodeContext) -> (r: Entity)
    ensures
        r@ == entity_read(*entity, taken(*context)),
{
    let (entity_index, server_class, serial_number, in_pvs) = entity_fields(entity);
    let update_type = entity_kind(entity);
    let baseline_props = match update_type {
        UpdateType::Enter => entity_baseline_props(entity, context),
        _ => Vec::new(),
    };
    Entity {
        entity_index,
        server_class,
        serial_number,
        update_type,
        in_pvs,
        props: entity_props(entity),
        baseline_props,
    }
}

/// The mirrors of a list of entity entries, in order.
pub(crate) fn read_entities(entities: &Vec<PacketEntity>, context: &DecodeContext) -> (r: Vec<
    Entity,
>)
    ensures
        entity_views(r@) == entities_read(entities@, taken(*context)),
{
    let mut out: Vec<Entity> = Vec::new();
    let mut i: usize = 0;
    while i < entities.len()
        invariant
            i <= entities.len(),
            out.len() == i,
            forall|j: int|
                0 <= j < i ==> (#[trigger] out@[j])@ == entity_read(entities@[j], taken(*context)),
        decreases entities.len() - i,
    {
        let entity = read_entity(&entities[i], context);
        out.push(entity);
        i = i + 1;
    }
    proof {
        assert(entity_views(out@) =~= entities_read(entities@, taken(*context)));
    }
    out
}

/// The mirror of an entity update.
pub(crate) fn read_entity_update(
    update: &PacketEntitiesMessage,
    context: &DecodeContext,
) -> (r: EntityUpdate)
    ensures
        r@ == update_read(*update, taken(*context)),
{
    let (max_entries, delta, second, updated_base_line) = entity_update_fields(update);
    EntityUpdate {
        entities: read_entities(entity_update_entities(update), context),
        removed_entities: entity_update_removed(update),
        max_entries,
        delta,
        base_line: if second {
            1
        } else {
            0
        },
        updated_base_line,
    }
}

/// The mirror of a message.
pub(crate) fn read_message(message: &Message<'static>, context: &DecodeContext) -> (r:
    DemoMessage)
    ensures
        r@ == message_read(*message, taken(*context)),
{
    if let Some((tick, frame_time, std_dev)) = net_tick_fields(message) {
        DemoMessage::NetTick { tick, frame_time, std_dev }
    } else if let Some(update) = entity_update_of(message) {
        DemoMessage::Entities(read_entity_update(update, context))
    } else if let Some(update) = table_update_of(message) {
        let (table_id, entries) = table_update_parts(update);
        DemoMessage::TableUpdate(TableUpdate { table_id, entries })
    } else if let Some(kind) = user_message_kind(message) {
        DemoMessage::User { kind, raw: message.clone() }
    } else {
        DemoMessage::Other { raw: message.clone() }
    }
}

/// The mirror of a packet. Only message packets are opened up.
pub(crate) fn read_packet(packet: &Packet<'static>, context: &DecodeContext) -> (r: DemoPacket)
    ensures
        r@ == packet_read(*packet, taken(*context)),
{
    let tick = packet_tick(packet);
    match message_packet_parts(packet) {
        Some((messages, meta)) => {
            let mut out: Vec<DemoMessage> = Vec::new();
            let mut i: usize = 0;
            while i < messages.len()
                invariant
                    i <= messages.len(),
                    out.len() == i,
                    forall|j: int|
                        0 <= j < i ==> (#[trigger] out@[j])@ == message_read(
                            messages@[j],
                            taken(*context),
                        ),
                decreases messages.len() - i,
            {
                let message = read_message(&messages[i], context);
                out.push(message);
                i = i + 1;
            }
            proof {
                assert(message_views(out@) =~= messages_read(messages@, taken(*context)));
            }
            DemoPacket::Messages { tick, messages: out, meta: Some(meta) }
        },
        None => DemoPacket::Raw { kind: packet_kind(packet), tick, raw: packet.clone() },
    }
}

/// The mirror of the two baseline slots of the context.
pub(crate) fn read_baselines(context: &DecodeContext) -> (r: BaselineSlots)
    ensures
        r@ == slots_read(taken(*context)),
{
    let first = baseline_entities(context, false);
    let second = baseline_entities(context, true);
    BaselineSlots {
        first: read_entities(&first, context),
        second: read_entities(&second, context),
    }
}

/// The codec's entity entry for an entity of an update with the given basis
/// tick and baseline slot.
pub(crate) fn write_entity(entity: &Entity, delta: Option<u32>, base_line: u8) -> (r: PacketEntity)
    requires
        entity.entity_index <= MAX_ENTITY_INDEX,
    ensures
        r == entity_written(entity@, delta, base_line),
{
    codec_entity(
        entity,
        codec_kind(entity.update_type),
        codec_props(&entity.props),
        delta,
        is_second_slot(entity.update_type, base_line),
    )
}

/// The codec's message for an entity update.
pub(crate) fn write_entity_update(update: &EntityUpdate) -> (r: Message<'static>)
    requires
        update_fits(update@),
    ensures
        r == update_written(update@),
{
    let mut entities: Vec<PacketEntity> = Vec::new();
    let mut i: usize = 0;
    while i < update.entities.len()
        invariant
            i <= update.entities.len(),
            update_fits(update@),
            entities.len() == i,
            forall|j: int|
                0 <= j < i ==> #[trigger] entities@[j] == entity_written(
                    update@.entities[j],
                    update.delta,
                    update.base_line,
                ),
        decreases update.entities.len() - i,
    {
        assert(update@.entities[i as int].entity_index <= MAX_ENTITY_INDEX);
        assert(update@.entities[i as int] == update.entities@[i as int]@);
        entities.push(write_entity(&update.entities[i], update.delta, update.base_line));
        i = i + 1;
    }
    proof {
        assert(entities@ =~= update@.entities.map_values(
            |e: EntityView| entity_written(e, update@.delta, update@.base_line),
        ));
    }
    entity_update_message(entities, update, update.base_line != 0)
}

/// The codec's message for a message.
pub(crate) fn write_message(message: &DemoMessage) -> (r: Message<'static>)
    requires
        message_fits(message@),
    ensures
        r == message_written(message@),
{
    match message {
        DemoMessage::NetTick { tick, frame_time, std_dev } => net_tick_message(
            *tick,
            *frame_time,
            *std_dev,
        ),
        DemoMessage::Entities(update) => write_entity_update(update),
        DemoMessage::TableUpdate(update) => table_update_message(update),
        DemoMessage::User { raw, .. } => raw.clone(),
        DemoMessage::Other { raw } => raw.clone(),
    }
}

/// The codec's packet for a packet.
pub(crate) fn write_packet(packet: &DemoPacket) -> (r: Packet<'static>)
    requires
        packet_fits(packet@),
    ensures
        r == packet_written(packet@),
{
    match packet {
        DemoPacket::Messages { tick, messages, meta } => {
            let mut out: Vec<Message<'static>> = Vec::new();
            let mut i: usize = 0;
            assert(packet@->Messages_messages == message_views(messages@));
            while i < messages.len()
                invariant
                    i <= messages.len(),
                    out.len() == i,
                    forall|j: int|
                        0 <= j < messages.len() ==> message_fits(#[trigger] message_views(messages@)[j]),
                    forall|j: int|
                        0 <= j < i ==> #[trigger] out@[j] == message_written(
                            message_views(messages@)[j],
                        ),
                decreases messages.len() - i,
            {
                assert(message_fits(message_views(messages@)[i as int]));
                assert(message_views(messages@)[i as int] == messages@[i as int]@);
                out.push(write_message(&messages[i]));
                i = i + 1;
            }
            proof {
                assert(out@ =~= message_views(messages@).map_values(
                    |m: DemoMessageView| message_written(m),
                ));
            }
            let meta = match meta {
                Some(meta) => Some(meta.clone()),
                None => None,
            };
            message_packet(*tick, out, meta)
        },
        DemoPacket::Raw { tick, raw, .. } => packet_with_tick(raw, *tick),
    }
}

/// Every entity index of the update is one that the wire carries.
pub open spec fn update_fits(u: EntityUpdateView) -> bool {
    forall|i: int| 0 <= i < u.entities.len() ==> (#[trigger] u.entities[i]).entity_index
        <= MAX_ENTITY_INDEX
}

/// Every entity index of the message is one that the wire carries.
pub open spec fn message_fits(m: DemoMessageView) -> bool {
    m matches DemoMessageView::Entities(u) ==> update_fits(u)
}

/// Every entity index of the packet is one that the wire carries. Of a
/// packet that is not opened up nothing is asked: it holds no entity.
pub open spec fn packet_fits(p: DemoPacketView) -> bool {
    p matches DemoPacketView::Messages { messages, .. } ==> forall|i: int|
        0 <= i < messages.len() ==> message_fits(#[trigger] messages[i])
}

/// Whether every entity index of the update is one that the wire carries.
pub fn fits_update(update: &EntityUpdate) -> (r: bool)
    ensures
        r == update_fits(update@),
{
    let mut i: usize = 0;
    while i < update.entities.len()
        invariant
            i <= update.entities.len(),
            forall|j: int|
                0 <= j < i ==> (#[trigger] update@.entities[j]).entity_index <= MAX_ENTITY_INDEX,
        decreases update.entities.len() - i,
    {
        if update.entities[i].entity_index > MAX_ENTITY_INDEX {
            assert(update@.entities[i as int].entity_index > MAX_ENTITY_INDEX);
            return false;
        }
        assert(update@.entities[i as int].entity_index <= MAX_ENTITY_INDEX);
        i = i + 1;
    }
    true
}

/// Whether every entity index of the packet is one that the wire carries.
pub fn fits_packet(packet: &DemoPacket) -> (r: bool)
    ensures
        r == packet_fits(packet@),
{
    match packet {
        DemoPacket::Messages { messages, .. } => {
            let mut i: usize = 0;
            assert(packet@->Messages_messages == message_views(messages@));
            while i < messages.len()
                invariant
                    i <= messages.len(),
                    packet@ is Messages,
                    packet@->Messages_messages == message_views(messages@),
                    forall|j: int|
                        0 <= j < i ==> message_fits(#[trigger] message_views(messages@)[j]),
                decreases messages.len() - i,
            {
                let fits = match &messages[i] {
                    DemoMessage::Entities(update) => fits_update(update),
                    _ => true,
                };
                if !fits {
                    assert(!message_fits(message_views(messages@)[i as int]));
                    return false;
                }
                assert(message_fits(message_views(messages@)[i as int]));
                i = i + 1;
            }
            true
        },
        _ => true,
    }
}

/// Whether the codec's entry for an entity names the second baseline slot:
/// only an entering entity names the slot of its message, any other names
/// the first.
pub open spec fn second_slot(update_type: UpdateType, base_line: u8) -> bool {
    update_type == UpdateType::Enter && base_line != 0
}

/// Whether the codec's entry for an entity of this kind, in a message that
/// reads baseline slot `base_line`, names the second slot.
pub(crate) fn is_second_slot(update_type: UpdateType, base_line: u8) -> (r: bool)
    ensures
        r == second_slot(update_type, base_line),
{
    match update_type {
        UpdateType::Enter => base_line != 0,
        _ => false,
    }
}

} // verus!
