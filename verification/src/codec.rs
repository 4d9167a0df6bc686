//! The boundary to the capture codec: its types, and the calls into it.
//!
//! Nothing here is proved. Each function makes one call into the codec, or
//! moves fields between a codec type and the plain mirror of it in
//! [`crate::model`], one for one. What such a call returns has a name here,
//! a function of the arguments that is not written out: the contracts of
//! the library say what it makes of the values so named.

use bitbuffer::{BitError, BitRead, BitWrite, BitWriteStream, LittleEndian};
use tf_demo_parser::demo::data::UserInfo;
use tf_demo_parser::demo::gameevent_gen::GameEvent;
use tf_demo_parser::demo::message::gameevent::GameEventMessage;
use tf_demo_parser::demo::message::usermessage::UserMessage;
use tf_demo_parser::demo::data::ServerTick;
use tf_demo_parser::demo::header::Header;
use tf_demo_parser::demo::message::packetentities::UpdateType as CodecUpdateType;
use tf_demo_parser::demo::message::packetentities::{
    BaselineIndex, EntityId, PacketEntitiesMessage, PacketEntity,
};
use tf_demo_parser::demo::message::stringtable::UpdateStringTableMessage;
use tf_demo_parser::demo::message::{Message, NetTickMessage};
use tf_demo_parser::demo::packet::datatable::ClassId;
use tf_demo_parser::demo::packet::message::{MessagePacket, MessagePacketMeta};
use tf_demo_parser::demo::packet::stop::StopPacket;
use tf_demo_parser::demo::packet::stringtable::StringTableEntry;
use tf_demo_parser::demo::packet::{Packet, PacketType};
use tf_demo_parser::demo::parser::{DemoHandler, Encode, NullHandler, RawPacketStream};
use tf_demo_parser::demo::sendprop::{SendProp, SendPropIdentifier, SendPropValue};
use tf_demo_parser::{Demo, ParseError};
use vstd::prelude::*;

use crate::highlight::{no_entity, UserRecord};
use crate::model::{
    Entity, EntityUpdate, EntityUpdateView, EntityView, PacketKind, Prop, TableEntry, TableUpdate,
    TableUpdateView, UpdateType,
};

verus! {

#[verifier::external_type_specification]
#[verifier::external_body]
pub struct ExSendPropValue(SendPropValue);

#[verifier::external_type_specification]
#[verifier::external_body]
pub struct ExSendProp(SendProp);

#[verifier::external_type_specification]
#[verifier::external_body]
pub struct ExStringTableEntry<'a>(StringTableEntry<'a>);

#[verifier::external_type_specification]
#[verifier::external_body]
pub struct ExMessage<'a>(Message<'a>);

#[verifier::external_type_specification]
#[verifier::external_body]
pub struct ExMessagePacketMeta(MessagePacketMeta);

#[verifier::external_type_specification]
#[verifier::external_body]
pub struct ExPacket<'a>(Packet<'a>);

#[verifier::external_type_specification]
#[verifier::external_body]
pub struct ExPacketEntity(PacketEntity);

#[verifier::external_type_specification]
#[verifier::external_body]
pub struct ExUpdateType(CodecUpdateType);

#[verifier::external_type_specification]
#[verifier::external_body]
pub struct ExPacketEntitiesMessage(PacketEntitiesMessage);

#[verifier::external_type_specification]
#[verifier::external_body]
pub struct ExUpdateStringTableMessage<'a>(UpdateStringTableMessage<'a>);

#[verifier::external_type_specification]
#[verifier::external_body]
pub struct ExHeader(Header);

#[verifier::external_type_specification]
#[verifier::external_body]
pub struct ExRawPacketStream<'a>(RawPacketStream<'a>);

#[verifier::external_type_specification]
#[verifier::external_body]
pub struct ExParseError(ParseError);

#[verifier::external_type_specification]
#[verifier::external_body]
pub struct ExBitError(BitError);

/// `SendPropValue::clone`, which the codec derives. The value holds numbers,
/// strings and lists of them, and no bit stream: the copy is the same value
/// as its source.
pub assume_specification[ <tf_demo_parser::demo::sendprop::SendPropValue as Clone>::clone ](
    source: &tf_demo_parser::demo::sendprop::SendPropValue,
) -> (r: tf_demo_parser::demo::sendprop::SendPropValue)
    ensures
        r == *source,
;

/// The copy that `StringTableEntry::clone` makes of an entry. It keeps the
/// text, and of the extra data what has not been read yet: the copy of a
/// bit stream starts where its source stands.
pub uninterp spec fn entry_copy(
    source: tf_demo_parser::demo::packet::stringtable::StringTableEntry<'static>,
) -> tf_demo_parser::demo::packet::stringtable::StringTableEntry<'static>;

/// `StringTableEntry::clone`. The codec derives it, and below it stands the
/// copy of a bit stream, which is not always equal to its source: the result
/// is the copy, a function of the source alone.
pub assume_specification<'a>[ <tf_demo_parser::demo::packet::stringtable::StringTableEntry<
    'a,
> as Clone>::clone ](
    source: &tf_demo_parser::demo::packet::stringtable::StringTableEntry<'a>,
) -> (r: tf_demo_parser::demo::packet::stringtable::StringTableEntry<'a>)
    ensures
        r == entry_copy(*source),
;

/// The copy that `Message::clone` makes of a message. Where the message
/// holds a bit stream, the copy holds what of it has not been read yet.
pub uninterp spec fn message_copy(
    source: tf_demo_parser::demo::message::Message<'static>,
) -> tf_demo_parser::demo::message::Message<'static>;

/// `Message::clone`. The codec derives it, and below it stands the copy of
/// a bit stream, which is not always equal to its source: the result is the
/// copy, a function of the source alone.
pub assume_specification<'a>[ <tf_demo_parser::demo::message::Message<'a> as Clone>::clone ](
    source: &tf_demo_parser::demo::message::Message<'a>,
) -> (r: tf_demo_parser::demo::message::Message<'a>)
    ensures
        r == message_copy(*source),
;

/// `MessagePacketMeta::clone`, which the codec derives. The value holds
/// numbers alone: the copy is the same value as its source.
pub assume_specification[ <tf_demo_parser::demo::packet::message::MessagePacketMeta as Clone>::clone ](
    source: &tf_demo_parser::demo::packet::message::MessagePacketMeta,
) -> (r: tf_demo_parser::demo::packet::message::MessagePacketMeta)
    ensures
        r == *source,
;

/// The copy that `Packet::clone` makes of a packet. Where the packet holds
/// a bit stream, the copy holds what of it has not been read yet.
pub uninterp spec fn packet_copy(
    source: tf_demo_parser::demo::packet::Packet<'static>,
) -> tf_demo_parser::demo::packet::Packet<'static>;

/// `Packet::clone`. The codec derives it, and below it stands the copy of a
/// bit stream, which is not always equal to its source: the result is the
/// copy, a function of the source alone.
pub assume_specification<'a>[ <tf_demo_parser::demo::packet::Packet<'a> as Clone>::clone ](
    source: &tf_demo_parser::demo::packet::Packet<'a>,
) -> (r: tf_demo_parser::demo::packet::Packet<'a>)
    ensures
        r == packet_copy(*source),
;

/// The header that `Header::read` finds at the start of a capture, and
/// `None` where it finds none there.
pub uninterp spec fn capture_header(input: Seq<u8>) -> Option<Header>;

/// The field `ticks` of a header.
pub uninterp spec fn header_ticks(header: Header) -> u32;

/// The tick count in the header of a capture, where it has a header.
pub open spec fn capture_ticks(input: Seq<u8>) -> Option<u32> {
    match capture_header(input) {
        Some(header) => Some(header_ticks(header)),
        None => None,
    }
}

/// The bytes of a capture that follow its header: what a packet stream that
/// `RawPacketStream::new` makes behind the header has before it.
pub uninterp spec fn capture_packets(input: Seq<u8>) -> Seq<u8>;

/// What a packet stream still reads from: the bytes behind its position,
/// and none once it has read a stop packet or has failed.
pub uninterp spec fn unread(packets: RawPacketStream<'static>) -> Seq<u8>;

/// `Header::read` on the start of `input`, and `RawPacketStream::new` on what
/// follows the header. The header depends on the bytes of the capture
/// alone, as does what the stream has before it.
#[verifier::external_body]
pub(crate) fn open_capture(input: &[u8]) -> (r: Result<
    (Header, RawPacketStream<'static>),
    ParseError,
>)
    ensures
        match r {
            Ok(opened) => capture_header(input@) == Some(opened.0) && unread(opened.1)
                == capture_packets(input@),
            Err(_) => capture_header(input@) is None,
        },
{
    let mut stream = Demo::owned(input.to_vec()).get_stream();
    let header = Header::read(&mut stream)?;
    Ok((header, RawPacketStream::new(stream)))
}

/// The field `ticks` of a header.
#[verifier::external_body]
pub(crate) fn ticks_of(header: &Header) -> (r: u32)
    ensures
        r == header_ticks(*header),
{
    header.ticks
}

/// The bytes that `Header::write` gives for a header with its field `ticks`
/// set to `ticks`, and `None` where it fails.
pub uninterp spec fn header_written(header: Header, ticks: u32) -> Option<Seq<u8>>;

/// The bytes of the header of a capture, rewritten to the tick count
/// `ticks`, where it has a header that can be written.
pub open spec fn rewritten_header(input: Seq<u8>, ticks: u32) -> Option<Seq<u8>> {
    match capture_header(input) {
        Some(header) => header_written(header, ticks),
        None => None,
    }
}

/// `Header::write` of a copy of the header with its field `ticks` set to
/// `ticks`, into a buffer of its own. The bytes depend on the header and on
/// `ticks` alone.
#[verifier::external_body]
pub(crate) fn header_bytes(header: &Header, ticks: u32) -> (r: Result<Vec<u8>, ParseError>)
    ensures
        match r {
            Ok(bytes) => header_written(*header, ticks) == Some(bytes@),
            Err(_) => header_written(*header, ticks) is None,
        },
{
    let header = Header { ticks, ..header.clone() };
    let mut bytes = Vec::new();
    header.write(&mut BitWriteStream::new(&mut bytes, LittleEndian))?;
    Ok(bytes)
}

/// The codec's decode context: the class and table definitions, entity
/// classes and baseline slots that it has gathered from the packets handed
/// to it, which it needs to read and to write the packets that follow.
///
/// The handler inside is generic over a trait of the codec, so its type
/// cannot be declared to the verifier, and the whole struct is opaque to it.
#[verifier::external_body]
pub struct DecodeContext {
    handler: DemoHandler<'static, NullHandler>,
}

/// What a decode context has taken in: the header that it was made for,
/// and the packets handed to it since, in their order.
pub struct Fed {
    pub header: Header,
    pub packets: Seq<Packet<'static>>,
}

impl Fed {
    /// A context made for `header`, with no packet handed to it yet.
    pub open spec fn new(header: Header) -> Fed {
        Fed { header, packets: Seq::empty() }
    }

    /// The same with one packet more.
    pub open spec fn with(self, packet: Packet<'static>) -> Fed {
        Fed { header: self.header, packets: self.packets.push(packet) }
    }
}

/// What a decode context has taken in. Its state is made from the header
/// and by the packets that it handled, and by nothing else.
pub uninterp spec fn taken(context: DecodeContext) -> Fed;

/// `DemoHandler::default` followed by `DemoHandler::handle_header`.
#[verifier::external_body]
pub(crate) fn new_context(header: &Header) -> (r: DecodeContext)
    ensures
        taken(r) == Fed::new(*header),
{
    let mut handler = DemoHandler::default();
    handler.handle_header(header);
    DecodeContext { handler }
}

/// Whether `DemoHandler::handle_packet` accepts the packet, in a context
/// that has taken in `fed`.
pub uninterp spec fn handles(fed: Fed, packet: Packet<'static>) -> bool;

/// `DemoHandler::handle_packet`. Whether it accepts the packet depends on
/// the packet and on what the context has taken in. An accepted packet is
/// one more that it has taken in; of a context that refused a packet nothing
/// is claimed.
#[verifier::external_body]
pub(crate) fn handle_packet(context: &mut DecodeContext, packet: Packet<'static>) -> (r: Result<
    (),
    ParseError,
>)
    ensures
        r is Ok <==> handles(taken(*old(context)), packet),
        r is Ok ==> taken(*final(context)) == taken(*old(context)).with(packet),
{
    context.handler.handle_packet(packet)
}

/// What `RawPacketStream::next` makes of the bytes before it.
pub enum Read {
    /// The bytes are no packet.
    Failed,
    /// The packets have ended: a stop packet was read before, or what is
    /// left is less than a packet.
    Ended,
    /// The next packet, and the bytes that the stream has before it then.
    Next { packet: Packet<'static>, rest: Seq<u8> },
    /// The reader's arithmetic leaves its range on the bytes. It does on a
    /// compressed string table of the older kind that copies from before
    /// the start of what it has unpacked: the reader then takes a
    /// difference of two lengths that is negative. Where arithmetic
    /// overflow is checked, the read does not return.
    OutOfRange,
}

/// What `RawPacketStream::next` makes of the bytes `unread`, with the
/// parser state of a context that has taken in `fed`.
pub uninterp spec fn read_of(unread: Seq<u8>, fed: Fed) -> Read;

/// `RawPacketStream::next` with the parser state of `context`. What it
/// returns depends on the bytes before the stream and on what the context
/// has taken in. Of a stream that failed or ended nothing more is claimed.
///
/// The bytes on which the reader's arithmetic leaves its range are left
/// out: on those the call does not return where overflow is checked.
#[verifier::external_body]
pub(crate) fn next_packet(packets: &mut RawPacketStream<'static>, context: &DecodeContext) -> (r:
    Result<Option<Packet<'static>>, ParseError>)
    requires
        !(read_of(unread(*old(packets)), taken(*context)) is OutOfRange),
    ensures
        match read_of(unread(*old(packets)), taken(*context)) {
            Read::Failed => r is Err,
            Read::Ended => r matches Ok(None),
            Read::Next { packet, rest } => r matches Ok(Some(found)) && found == packet && unread(
                *final(packets),
            ) == rest,
            Read::OutOfRange => true,
        },
{
    packets.next(&context.handler.state_handler)
}

/// What `Encode::encode` makes of a packet.
pub enum Encoded {
    /// The bytes of the packet.
    Bytes(Seq<u8>),
    /// The packet cannot be written.
    Failed,
    /// The writer's arithmetic leaves its range on the packet. It does on
    /// a string table with an entry behind the entry of slot 32767: the
    /// writer then adds one to the largest signed number of 16 bits. Where
    /// arithmetic overflow is checked, the write does not return.
    OutOfRange,
}

/// What `Encode::encode` makes of the packet, with the parser state of a
/// context that has taken in `fed`.
pub uninterp spec fn encoded(fed: Fed, packet: Packet<'static>) -> Encoded;

/// `Encode::encode` of the packet with the parser state of `context`, into a
/// buffer of its own. The bytes depend on the packet and on what the context
/// has taken in.
///
/// The packets on which the writer's arithmetic leaves its range are left
/// out: on those the call does not return where overflow is checked. The
/// writer also subtracts entity indices as signed numbers of 32 bits. A
/// packet that this library put together is handed to this call only where
/// every index is at most 2047, which `emit` tests. A packet that was not
/// opened up is written as the reader handed it out: its indices can be
/// larger, and the differences that the writer takes are those that the
/// reader added.
#[verifier::external_body]
pub(crate) fn packet_bytes(packet: &Packet<'static>, context: &DecodeContext) -> (r: Result<
    Vec<u8>,
    ParseError,
>)
    requires
        !(encoded(taken(*context), *packet) is OutOfRange),
    ensures
        match encoded(taken(*context), *packet) {
            Encoded::Bytes(bytes) => r matches Ok(found) && found@ == bytes,
            Encoded::Failed => r is Err,
            Encoded::OutOfRange => true,
        },
{
    let mut bytes = Vec::new();
    let mut stream = BitWriteStream::new(&mut bytes, LittleEndian);
    packet.encode(&mut stream, &context.handler.state_handler)?;
    Ok(bytes)
}

/// The entities of a baseline slot of a context that has taken in `fed`:
/// of slot 0, or of slot 1 if `second`, as `Baseline::into_values` hands
/// them out.
pub uninterp spec fn slot_entities(fed: Fed, second: bool) -> Seq<PacketEntity>;

/// The entities of baseline slot 0, or of slot 1 if `second`, as
/// `Baseline::into_values` hands them out. The slot is a vector, walked
/// from its start.
#[verifier::external_body]
pub(crate) fn baseline_entities(context: &DecodeContext, second: bool) -> (r: Vec<PacketEntity>)
    ensures
        r@ == slot_entities(taken(*context), second),
{
    let slots = &context.handler.state_handler.instance_baselines;
    slots[usize::from(second)].clone().into_values().collect()
}

/// `Packet::packet_type` of a packet, variant for variant.
pub uninterp spec fn packet_kind_of(packet: Packet<'static>) -> PacketKind;

/// `Packet::packet_type`, variant for variant.
#[verifier::external_body]
pub(crate) fn packet_kind(packet: &Packet<'static>) -> (r: PacketKind)
    ensures
        r == packet_kind_of(*packet),
{
    match packet.packet_type() {
        PacketType::Signon => PacketKind::Signon,
        PacketType::Message => PacketKind::Message,
        PacketType::SyncTick => PacketKind::SyncTick,
        PacketType::ConsoleCmd => PacketKind::ConsoleCmd,
        PacketType::UserCmd => PacketKind::UserCmd,
        PacketType::DataTables => PacketKind::DataTables,
        PacketType::Stop => PacketKind::Stop,
        PacketType::StringTables => PacketKind::StringTables,
    }
}

/// `Packet::tick` of a packet.
pub uninterp spec fn packet_tick_of(packet: Packet<'static>) -> u32;

/// `Packet::tick`.
#[verifier::external_body]
pub(crate) fn packet_tick(packet: &Packet<'static>) -> (r: u32)
    ensures
        r == packet_tick_of(*packet),
{
    u32::from(packet.tick())
}

/// The messages and the meta data of a `Packet::Message`, and `None` for
/// any other packet.
pub uninterp spec fn packet_messages(packet: Packet<'static>) -> Option<
    (Seq<Message<'static>>, MessagePacketMeta),
>;

/// The messages of a `Packet::Message` and a copy of its meta data, and
/// `None` for any other packet.
#[verifier::external_body]
pub(crate) fn message_packet_parts<'p>(packet: &'p Packet<'static>) -> (r: Option<
    (&'p Vec<Message<'static>>, MessagePacketMeta),
>)
    ensures
        match r {
            Some(found) => packet_messages(*packet) == Some((found.0@, found.1)),
            None => packet_messages(*packet) is None,
        },
{
    match packet {
        Packet::Message(inner) => Some((&inner.messages, inner.meta.clone())),
        _ => None,
    }
}

/// A copy of the packet with `Packet::set_tick` applied.
pub uninterp spec fn reticked(packet: Packet<'static>, tick: u32) -> Packet<'static>;

/// A copy of the packet with `Packet::set_tick` applied.
#[verifier::external_body]
pub(crate) fn packet_with_tick(packet: &Packet<'static>, tick: u32) -> (r: Packet<'static>)
    ensures
        r == reticked(*packet, tick),
{
    let mut packet = packet.clone();
    packet.set_tick(tick.into());
    packet
}

/// The `Packet::Message` of the given parts, with
/// `MessagePacketMeta::default` where no meta data is given.
pub uninterp spec fn raw_packet(
    tick: u32,
    messages: Seq<Message<'static>>,
    meta: Option<MessagePacketMeta>,
) -> Packet<'static>;

/// A `Packet::Message` of the given parts, with `MessagePacketMeta::default`
/// where no meta data is given.
#[verifier::external_body]
pub(crate) fn message_packet(
    tick: u32,
    messages: Vec<Message<'static>>,
    meta: Option<MessagePacketMeta>,
) -> (r: Packet<'static>)
    ensures
        r == raw_packet(tick, messages@, meta),
{
    Packet::Message(
        MessagePacket { tick: tick.into(), messages, meta: meta.unwrap_or_default() },
    )
}

/// The bytes of a stop packet: the packet type, which is 7, in one byte,
/// and the low 24 bits of the tick in three, lowest first.
pub open spec fn stop_bytes(tick: u32) -> Seq<u8> {
    seq![
        7u8,
        (tick % 256) as u8,
        ((tick / 256) % 256) as u8,
        ((tick / 65536) % 256) as u8,
    ]
}

/// `BitWrite::write` of `PacketType::Stop` and of a `StopPacket` with the
/// given tick, into a buffer of its own. The codec writes the type in eight
/// bits and the tick in twenty-four, little-endian, and drops the bits of
/// the tick above them. A write into a buffer that grows does not fail.
#[verifier::external_body]
pub(crate) fn stop_packet_bytes(tick: u32) -> (r: Vec<u8>)
    ensures
        r@ == stop_bytes(tick),
{
    let mut bytes = Vec::new();
    let mut stream = BitWriteStream::new(&mut bytes, LittleEndian);
    let _ = PacketType::Stop.write(&mut stream);
    let _ = StopPacket { tick: tick.into() }.write(&mut stream);
    bytes
}

/// The fields of a `Message::NetTick`, and `None` for any other message.
pub uninterp spec fn net_tick_in(message: Message<'static>) -> Option<(u32, u16, u16)>;

/// The fields of a `Message::NetTick`, and `None` for any other message.
#[verifier::external_body]
pub(crate) fn net_tick_fields(message: &Message<'static>) -> (r: Option<(u32, u16, u16)>)
    ensures
        r == net_tick_in(*message),
{
    match message {
        Message::NetTick(inner) => Some((inner.tick.into(), inner.frame_time, inner.std_dev)),
        _ => None,
    }
}

/// The `Message::NetTick` of the given fields.
pub uninterp spec fn raw_net_tick(tick: u32, frame_time: u16, std_dev: u16) -> Message<'static>;

/// A `Message::NetTick` of the given fields.
#[verifier::external_body]
pub(crate) fn net_tick_message(tick: u32, frame_time: u16, std_dev: u16) -> (r: Message<'static>)
    ensures
        r == raw_net_tick(tick, frame_time, std_dev),
{
    Message::NetTick(NetTickMessage { tick: tick.into(), frame_time, std_dev })
}

/// `UserMessage::message_type` of a `Message::UserMessage`, and `None` for
/// any other message.
pub uninterp spec fn user_kind_in(message: Message<'static>) -> Option<u8>;

/// `UserMessage::message_type` of a `Message::UserMessage`, and `None` for
/// any other message.
#[verifier::external_body]
pub(crate) fn user_message_kind(message: &Message<'static>) -> (r: Option<u8>)
    ensures
        r == user_kind_in(*message),
{
    match message {
        Message::UserMessage(inner) => Some(inner.message_type()),
        _ => None,
    }
}

/// The payload of a `Message::PacketEntities`, and `None` for any other
/// message.
pub uninterp spec fn entities_in(message: Message<'static>) -> Option<PacketEntitiesMessage>;

/// The payload of a `Message::PacketEntities`, and `None` for any other
/// message.
#[verifier::external_body]
pub(crate) fn entity_update_of<'m>(message: &'m Message<'static>) -> (r: Option<
    &'m PacketEntitiesMessage,
>)
    ensures
        match r {
            Some(update) => entities_in(*message) == Some(*update),
            None => entities_in(*message) is None,
        },
{
    match message {
        Message::PacketEntities(inner) => Some(inner),
        _ => None,
    }
}

/// The payload of a `Message::UpdateStringTable`, and `None` for any other
/// message.
pub uninterp spec fn table_in(message: Message<'static>) -> Option<
    UpdateStringTableMessage<'static>,
>;

/// The payload of a `Message::UpdateStringTable`, and `None` for any other
/// message.
#[verifier::external_body]
pub(crate) fn table_update_of<'m>(message: &'m Message<'static>) -> (r: Option<
    &'m UpdateStringTableMessage<'static>,
>)
    ensures
        match r {
            Some(update) => table_in(*message) == Some(*update),
            None => table_in(*message) is None,
        },
{
    match message {
        Message::UpdateStringTable(inner) => Some(inner),
        _ => None,
    }
}

/// The table identifier of a string table message and its entries, each
/// with its slot and as a copy.
pub uninterp spec fn table_mirror(update: UpdateStringTableMessage<'static>) -> TableUpdateView;

/// The table identifier of the message and its entries, each with its slot
/// and as the copy that `StringTableEntry::clone` makes.
#[verifier::external_body]
pub(crate) fn table_update_parts(update: &UpdateStringTableMessage<'static>) -> (r: (
    u8,
    Vec<TableEntry>,
))
    ensures
        r.0 == table_mirror(*update).table_id,
        r.1@ == table_mirror(*update).entries,
{
    let entry = |(slot, entry): &(u16, StringTableEntry<'static>)| {
        TableEntry { slot: *slot, entry: entry.clone() }
    };
    (update.table_id, update.entries.iter().map(entry).collect())
}

/// The `Message::UpdateStringTable` of the same table and of a copy of each
/// entry.
pub uninterp spec fn raw_table(update: TableUpdateView) -> Message<'static>;

/// A `Message::UpdateStringTable` of the same table and entries, each entry
/// as the copy that `StringTableEntry::clone` makes.
#[verifier::external_body]
pub(crate) fn table_update_message(update: &TableUpdate) -> (r: Message<'static>)
    ensures
        r == raw_table(update@),
{
    let entry = |e: &TableEntry| (e.slot, e.entry.clone());
    Message::UpdateStringTable(
        UpdateStringTableMessage {
            entries: update.entries.iter().map(entry).collect(),
            table_id: update.table_id,
        },
    )
}

/// The fields `max_entries`, `delta`, `base_line` (true for the second slot)
/// and `updated_base_line` of an entity update.
pub uninterp spec fn update_fields(update: PacketEntitiesMessage) -> (u16, Option<u32>, bool, bool);

/// The entity entries of an entity update, in their order.
pub uninterp spec fn update_entities(update: PacketEntitiesMessage) -> Seq<PacketEntity>;

/// The removal list of an entity update, each index as a number.
pub uninterp spec fn update_removed(update: PacketEntitiesMessage) -> Seq<u32>;

/// The fields `max_entries`, `delta`, `base_line` (true for the second slot)
/// and `updated_base_line` of an entity update.
#[verifier::external_body]
pub(crate) fn entity_update_fields(update: &PacketEntitiesMessage) -> (r: (
    u16,
    Option<u32>,
    bool,
    bool,
))
    ensures
        r == update_fields(*update),
{
    let second = match update.base_line {
        BaselineIndex::First => false,
        BaselineIndex::Second => true,
    };
    (update.max_entries, update.delta.map(u32::from), second, update.updated_base_line)
}

/// The entity entries of an entity update.
#[verifier::external_body]
pub(crate) fn entity_update_entities(update: &PacketEntitiesMessage) -> (r: &Vec<PacketEntity>)
    ensures
        r@ == update_entities(*update),
{
    &update.entities
}

/// The removal list of an entity update, each index as a number.
#[verifier::external_body]
pub(crate) fn entity_update_removed(update: &PacketEntitiesMessage) -> (r: Vec<u32>)
    ensures
        r@ == update_removed(*update),
{
    update.removed_entities.iter().map(|id| u32::from(*id)).collect()
}

/// The fields `entity_index`, `server_class`, `serial_number` and `in_pvs`
/// of an entity entry.
pub uninterp spec fn entity_scalars(entity: PacketEntity) -> (u32, u16, u32, bool);

/// The fields `entity_index`, `server_class`, `serial_number` and `in_pvs`
/// of an entity entry.
#[verifier::external_body]
pub(crate) fn entity_fields(entity: &PacketEntity) -> (r: (u32, u16, u32, bool))
    ensures
        r == entity_scalars(*entity),
{
    (
        u32::from(entity.entity_index),
        u16::from(entity.server_class),
        entity.serial_number,
        entity.in_pvs,
    )
}

/// The `update_type` of an entity entry, variant for variant. The codec's
/// `Delta` is the entry that preserves the entity.
pub uninterp spec fn entity_kind_of(entity: PacketEntity) -> UpdateType;

/// The `update_type` of an entity entry, variant for variant. The codec's
/// `Delta` is the entry that preserves the entity.
#[verifier::external_body]
pub(crate) fn entity_kind(entity: &PacketEntity) -> (r: UpdateType)
    ensures
        r == entity_kind_of(*entity),
{
    match entity.update_type {
        CodecUpdateType::Enter => UpdateType::Enter,
        CodecUpdateType::Delta => UpdateType::Preserve,
        CodecUpdateType::Leave => UpdateType::Leave,
        CodecUpdateType::Delete => UpdateType::Delete,
    }
}

/// The properties of an entity entry, field for field.
pub uninterp spec fn entity_props_of(entity: PacketEntity) -> Seq<Prop>;

/// The properties of an entity entry, field for field.
#[verifier::external_body]
pub(crate) fn entity_props(entity: &PacketEntity) -> (r: Vec<Prop>)
    ensures
        r@ == entity_props_of(*entity),
{
    let prop = |p: &SendProp| {
        Prop { index: p.index, identifier: u64::from(p.identifier), value: p.value.clone() }
    };
    entity.props.iter().map(prop).collect()
}

/// What `PacketEntity::get_baseline_props` gives for the entry, with the
/// parser state of a context that has taken in `fed`, field for field.
pub uninterp spec fn baseline_props_of(entity: PacketEntity, fed: Fed) -> Seq<Prop>;

/// `PacketEntity::get_baseline_props` with the parser state of `context`,
/// field for field.
#[verifier::external_body]
pub(crate) fn entity_baseline_props(entity: &PacketEntity, context: &DecodeContext) -> (r: Vec<
    Prop,
>)
    ensures
        r@ == baseline_props_of(*entity, taken(*context)),
{
    let prop = |p: &SendProp| {
        Prop { index: p.index, identifier: u64::from(p.identifier), value: p.value.clone() }
    };
    entity.get_baseline_props(&context.handler.state_handler).iter().map(prop).collect()
}

/// The codec's properties for a property list, field for field.
pub uninterp spec fn raw_props(props: Seq<Prop>) -> Seq<SendProp>;

/// The codec's properties for a property list, field for field.
#[verifier::external_body]
pub(crate) fn codec_props(props: &Vec<Prop>) -> (r: Vec<SendProp>)
    ensures
        r@ == raw_props(props@),
{
    let prop = |p: &Prop| {
        SendProp {
            index: p.index,
            identifier: SendPropIdentifier::from(p.identifier),
            value: p.value.clone(),
        }
    };
    props.iter().map(prop).collect()
}

/// The codec's update type, variant for variant: `Delta` for the entry
/// that preserves the entity.
pub uninterp spec fn raw_kind(kind: UpdateType) -> CodecUpdateType;

/// The codec's update type, variant for variant.
#[verifier::external_body]
pub(crate) fn codec_kind(kind: UpdateType) -> (r: CodecUpdateType)
    ensures
        r == raw_kind(kind),
{
    match kind {
        UpdateType::Enter => CodecUpdateType::Enter,
        UpdateType::Preserve => CodecUpdateType::Delta,
        UpdateType::Leave => CodecUpdateType::Leave,
        UpdateType::Delete => CodecUpdateType::Delete,
    }
}

/// The codec's entity entry with the index, class, serial number and
/// visibility of `entity`, and with the given update type, properties,
/// basis tick and baseline slot (true for the second), without a delay.
pub uninterp spec fn raw_entity(
    entity: EntityView,
    update_type: CodecUpdateType,
    props: Seq<SendProp>,
    delta: Option<u32>,
    second: bool,
) -> PacketEntity;

/// The codec's entity entry for `entity`, field for field, with the given
/// update type, properties, basis tick and baseline slot (true for the
/// second). The codec never sets a delay, and none is set here.
#[verifier::external_body]
pub(crate) fn codec_entity(
    entity: &Entity,
    update_type: CodecUpdateType,
    props: Vec<SendProp>,
    delta: Option<u32>,
    second: bool,
) -> (r: PacketEntity)
    ensures
        r == raw_entity(entity@, update_type, props@, delta, second),
{
    PacketEntity {
        server_class: ClassId::from(entity.server_class),
        entity_index: EntityId::from(entity.entity_index),
        props,
        in_pvs: entity.in_pvs,
        update_type,
        serial_number: entity.serial_number,
        delay: None,
        delta: delta.map(ServerTick::from),
        baseline_index: BaselineIndex::from(second),
    }
}

/// The `Message::PacketEntities` with the given entity entries, the given
/// baseline slot (true for the second), and the removal list, the maximum,
/// the basis tick and the baseline flag of `update`.
pub uninterp spec fn raw_update(
    entities: Seq<PacketEntity>,
    update: EntityUpdateView,
    second: bool,
) -> Message<'static>;

/// A `Message::PacketEntities` with the given entity entries, the given
/// baseline slot (true for the second) and the other fields of `update`.
#[verifier::external_body]
pub(crate) fn entity_update_message(
    entities: Vec<PacketEntity>,
    update: &EntityUpdate,
    second: bool,
) -> (r: Message<'static>)
    ensures
        r == raw_update(entities@, update@, second),
{
    Message::PacketEntities(
        PacketEntitiesMessage {
            entities,
            removed_entities: update.removed_entities.iter().map(|id| EntityId::from(*id)).collect(),
            max_entries: update.max_entries,
            delta: update.delta.map(ServerTick::from),
            base_line: BaselineIndex::from(second),
            updated_base_line: update.updated_base_line,
        },
    )
}

/// The player hit, the attacker and the damage of a player-hurt event, and
/// `None` for any other message.
pub uninterp spec fn hurt_in(message: Message<'static>) -> Option<(u16, u16, u16)>;

/// The player hit, the attacker and the damage of a player-hurt event, and
/// `None` for any other message.
#[verifier::external_body]
pub(crate) fn player_hurt_fields<'a>(message: &Message<'a>) -> (r: Option<(u16, u16, u16)>)
    ensures
        r == hurt_in(*message),
{
    match message {
        Message::GameEvent(GameEventMessage { event: GameEvent::PlayerHurt(hit), .. }) => Some(
            (hit.user_id, hit.attacker, hit.damage_amount),
        ),
        _ => None,
    }
}

/// The player of a rocket-jump or sticky-jump event, and `None` for any
/// other message.
pub uninterp spec fn jump_start_in(message: Message<'static>) -> Option<u16>;

/// The player of a rocket-jump or sticky-jump event, and `None` for any
/// other message.
#[verifier::external_body]
pub(crate) fn jump_started_by<'a>(message: &Message<'a>) -> (r: Option<u16>)
    ensures
        r == jump_start_in(*message),
{
    match message {
        Message::GameEvent(GameEventMessage { event: GameEvent::RocketJump(jump), .. }) => Some(
            jump.user_id,
        ),
        Message::GameEvent(GameEventMessage { event: GameEvent::StickyJump(jump), .. }) => Some(
            jump.user_id,
        ),
        _ => None,
    }
}

/// The player of a rocket-jump-landed or sticky-jump-landed event, and
/// `None` for any other message.
pub uninterp spec fn jump_end_in(message: Message<'static>) -> Option<u16>;

/// The player of a rocket-jump-landed or sticky-jump-landed event, and
/// `None` for any other message.
#[verifier::external_body]
pub(crate) fn jump_ended_by<'a>(message: &Message<'a>) -> (r: Option<u16>)
    ensures
        r == jump_end_in(*message),
{
    match message {
        Message::GameEvent(
            GameEventMessage { event: GameEvent::RocketJumpLanded(landed), .. },
        ) => Some(landed.user_id),
        Message::GameEvent(
            GameEventMessage { event: GameEvent::StickyJumpLanded(landed), .. },
        ) => Some(landed.user_id),
        _ => None,
    }
}

/// The player of a player-spawn event, and `None` for any other message.
pub uninterp spec fn spawn_in(message: Message<'static>) -> Option<u16>;

/// The player of a player-spawn event, and `None` for any other message.
#[verifier::external_body]
pub(crate) fn spawned_player<'a>(message: &Message<'a>) -> (r: Option<u16>)
    ensures
        r == spawn_in(*message),
{
    match message {
        Message::GameEvent(GameEventMessage { event: GameEvent::PlayerSpawn(spawn), .. }) => Some(
            spawn.user_id,
        ),
        _ => None,
    }
}

/// The client and the text of a chat message, and `None` for any other
/// message.
pub uninterp spec fn chat_in(message: Message<'static>) -> Option<(u32, String)>;

/// The client and the text of a chat message, and `None` for any other
/// message.
#[verifier::external_body]
pub(crate) fn chat_signal<'a>(message: &Message<'a>) -> (r: Option<(u32, String)>)
    ensures
        r == chat_in(*message),
{
    match message {
        Message::UserMessage(UserMessage::SayText2(chat)) => Some(
            (u32::from(chat.client), chat.text.to_string()),
        ),
        _ => None,
    }
}

/// The number that `str::parse` reads from the text of the entry, if the
/// entry has a text that is a number, and whether the entry has extra data.
pub uninterp spec fn entry_parts(entry: StringTableEntry<'static>) -> (Option<u32>, bool);

/// The number that `str::parse` reads from the text of the entry, if the
/// entry has a text that is a number, and whether the entry has extra data.
#[verifier::external_body]
pub(crate) fn user_entry_parts<'a>(entry: &StringTableEntry<'a>) -> (r: (Option<u32>, bool))
    ensures
        r == entry_parts(*entry),
{
    let number = entry.text.as_deref().and_then(|text| text.parse::<u32>().ok());
    (number, entry.extra_data.is_some())
}

/// What `UserInfo::parse_from_string_table` makes of the text and the
/// extra data of an entry at the given index: of the player that it finds
/// the identifier, the entity, the name and the account; no player where
/// the entry announces none; and `None` where the entry cannot be read.
pub uninterp spec fn user_entry_of(index: u16, entry: StringTableEntry<'static>) -> Option<
    Option<UserRecord>,
>;

/// `UserInfo::parse_from_string_table` on the text and the extra data of the
/// entry, and of the player that it finds the identifier, the entity, the
/// name and the account.
///
/// Where the entry has extra data, the codec adds one to the number in its
/// text: an entry with extra data and the largest number is left out.
#[verifier::external_body]
pub(crate) fn parse_user_entry<'a>(index: u16, entry: &StringTableEntry<'a>) -> (r: Result<
    Option<UserRecord>,
    BitError,
>)
    requires
        !no_entity(entry_parts(*entry).0, entry_parts(*entry).1),
    ensures
        match r {
            Ok(found) => user_entry_of(index, *entry) == Some(found),
            Err(_) => user_entry_of(index, *entry) is None,
        },
{
    let data = entry.extra_data.as_ref().map(|extra| extra.data.clone());
    let info = UserInfo::parse_from_string_table(index, entry.text.as_deref(), data)?;
    Ok(info.map(|info| UserRecord {
        user_id: u16::from(info.player_info.user_id),
        entity_id: u32::from(info.entity_id),
        name: info.player_info.name,
        steam_id: info.player_info.steam_id,
    }))
}

} // verus!
