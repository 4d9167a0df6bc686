use bitbuffer::{BitRead, BitReadBuffer, BitReadStream, BitWrite, BitWriteStream, LittleEndian};
use democutter::{cut, CutError};
use tf_demo_parser::demo::header::Header;
use tf_demo_parser::demo::message::packetentities::{
    BaselineIndex, EntityId, PacketEntitiesMessage, PacketEntity, UpdateType,
};
use tf_demo_parser::demo::message::stringtable::{
    CreateStringTableMessage, UpdateStringTableMessage,
};
use tf_demo_parser::demo::message::usermessage::{TrainMessage, UnknownUserMessage, UserMessage};
use tf_demo_parser::demo::message::{Message, NetTickMessage};
use tf_demo_parser::demo::packet::consolecmd::ConsoleCmdPacket;
use tf_demo_parser::demo::packet::datatable::{
    ClassId, DataTablePacket, ParseSendTable, ServerClass,
};
use tf_demo_parser::demo::packet::message::{MessagePacket, MessagePacketMeta};
use tf_demo_parser::demo::packet::stop::StopPacket;
use tf_demo_parser::demo::packet::stringtable::{StringTable, StringTableEntry};
use tf_demo_parser::demo::packet::synctick::SyncTickPacket;
use tf_demo_parser::demo::packet::{Packet, PacketType};
use tf_demo_parser::demo::parser::{DemoHandler, Encode, RawPacketStream};
use tf_demo_parser::demo::sendprop::{
    RawSendPropDefinition, SendProp, SendPropFlag, SendPropFlags, SendPropIdentifier,
    SendPropType, SendPropValue,
};
use tf_demo_parser::demo::parser::gamestateanalyser::GameStateAnalyser;
use tf_demo_parser::{Demo, DemoParser};

const SERVER_OFFSET: u32 = 1000;

fn header(ticks: u32) -> Header {
    Header {
        demo_type: "HL2DEMO".into(),
        version: 3,
        protocol: 24,
        server: "server".into(),
        nick: "nick".into(),
        map: "map".into(),
        game: "tf".into(),
        duration: 60.0,
        ticks,
        frames: ticks,
        signon: 0,
    }
}

fn int_prop(name: &'static str) -> RawSendPropDefinition {
    RawSendPropDefinition {
        prop_type: SendPropType::Int,
        name: name.into(),
        identifier: SendPropIdentifier::new("DT_Test", name),
        flags: SendPropFlags::default() | SendPropFlag::Unsigned,
        table_name: None,
        low_value: Some(0.0),
        high_value: Some(255.0),
        bit_count: Some(8),
        element_count: None,
        array_property: None,
        original_bit_count: Some(8),
    }
}

fn data_tables() -> Packet<'static> {
    Packet::DataTables(DataTablePacket {
        tick: 0.into(),
        tables: vec![ParseSendTable {
            name: "DT_Test".into(),
            props: vec![int_prop("m_a"), int_prop("m_b")],
            needs_decoder: true,
        }],
        server_classes: vec![ServerClass {
            id: ClassId::from(0),
            name: "CTest".to_string().into(),
            data_table: "DT_Test".into(),
        }],
    })
}

fn send_prop(index: u32, name: &str, value: i64) -> SendProp {
    SendProp {
        index,
        identifier: SendPropIdentifier::new("DT_Test", name),
        value: SendPropValue::Integer(value),
    }
}

fn outside_entity(
    index: u32,
    kind: UpdateType,
    props: Vec<SendProp>,
    delta: Option<u32>,
) -> PacketEntity {
    PacketEntity {
        server_class: ClassId::from(0),
        entity_index: EntityId::from(index),
        props,
        in_pvs: kind == UpdateType::Enter || kind == UpdateType::Delta,
        update_type: kind,
        serial_number: if kind == UpdateType::Enter { 5 } else { 0 },
        delay: None,
        delta: delta.map(Into::into),
        baseline_index: BaselineIndex::First,
    }
}

/// The entity update of tick `tick` of the made-up capture.
fn entities_at(tick: u32) -> PacketEntitiesMessage {
    let delta = if tick == 1 { None } else { Some(SERVER_OFFSET + tick - 1) };
    let value = (tick % 200) as i64;
    let mut entities = Vec::new();
    if tick == 1 {
        entities.push(outside_entity(1, UpdateType::Enter, vec![send_prop(0, "m_a", 1)], delta));
        entities.push(outside_entity(2, UpdateType::Enter, vec![send_prop(1, "m_b", 2)], delta));
        entities.push(outside_entity(3, UpdateType::Enter, vec![], delta));
    } else {
        entities.push(outside_entity(1, UpdateType::Delta, vec![send_prop(1, "m_b", value)], delta));
        if tick == 5 {
            entities.push(outside_entity(2, UpdateType::Delete, vec![], delta));
        }
        if tick == 7 {
            entities.push(outside_entity(3, UpdateType::Leave, vec![], delta));
        }
        if tick == 20 {
            entities.push(outside_entity(4, UpdateType::Enter, vec![send_prop(0, "m_a", 9)], delta));
        }
        if tick == 45 {
            entities.push(outside_entity(4, UpdateType::Delete, vec![], delta));
        }
    }
    PacketEntitiesMessage {
        entities,
        removed_entities: vec![],
        max_entries: 16,
        delta: delta.map(Into::into),
        base_line: BaselineIndex::First,
        updated_base_line: tick == 1,
    }
}

fn table_write(entries: &[(u16, &str)]) -> Message<'static> {
    Message::UpdateStringTable(UpdateStringTableMessage {
        entries: entries
            .iter()
            .map(|(slot, text)| {
                (*slot, StringTableEntry { text: Some(text.to_string().into()), extra_data: None })
            })
            .collect(),
        table_id: 0,
    })
}

fn caption() -> Message<'static> {
    Message::UserMessage(UserMessage::Unknown(UnknownUserMessage {
        raw_type: 14,
        data: BitReadStream::new(BitReadBuffer::new_owned(vec![1, 2, 3], LittleEndian)),
    }))
}

fn train() -> Message<'static> {
    Message::UserMessage(UserMessage::Train(TrainMessage { data: 12 }))
}

/// The message packet of tick `tick` of the made-up capture, with or without
/// its closed captions.
fn message_packet_with(tick: u32, captions: bool) -> Packet<'static> {
    let mut messages = vec![
        Message::NetTick(NetTickMessage {
            tick: (SERVER_OFFSET + tick).into(),
            frame_time: 10,
            std_dev: 1,
        }),
        Message::PacketEntities(entities_at(tick)),
    ];
    if tick == 3 {
        messages.push(table_write(&[(2, "foo")]));
    }
    if tick == 8 {
        messages.push(table_write(&[(5, "baz"), (2, "bar")]));
    }
    if tick == 35 {
        if captions {
            messages.push(caption());
        }
        messages.push(train());
        if captions {
            messages.push(caption());
        }
    }
    Packet::Message(MessagePacket {
        tick: tick.into(),
        messages,
        meta: MessagePacketMeta::default(),
    })
}

fn message_packet(tick: u32) -> Packet<'static> {
    message_packet_with(tick, true)
}

fn signon() -> Packet<'static> {
    Packet::Signon(MessagePacket {
        tick: 0.into(),
        messages: vec![Message::CreateStringTable(CreateStringTableMessage {
            table: StringTable {
                name: "test".into(),
                entries: vec![],
                max_entries: 16,
                fixed_user_data_size: None,
                client_entries: None,
                compressed: false,
            },
        })],
        meta: MessagePacketMeta::default(),
    })
}

/// The packets of a capture of `ticks` ticks, without the final stop.
fn packets(ticks: u32) -> Vec<Packet<'static>> {
    let mut packets =
        vec![signon(), data_tables(), Packet::SyncTick(SyncTickPacket { tick: 0.into() })];
    for tick in 1..=ticks {
        packets.push(message_packet(tick));
        if tick % 10 == 0 {
            packets.push(Packet::ConsoleCmd(ConsoleCmdPacket {
                tick: tick.into(),
                command: "say hi".into(),
            }));
        }
    }
    packets
}

fn capture(ticks: u32) -> Vec<u8> {
    let header = header(ticks);
    let mut out = Vec::new();
    {
        let mut stream = BitWriteStream::new(&mut out, LittleEndian);
        header.write(&mut stream).unwrap();
        let mut handler = DemoHandler::default();
        handler.handle_header(&header);
        for packet in packets(ticks) {
            packet.encode(&mut stream, &handler.state_handler).unwrap();
            handler.handle_packet(packet).unwrap();
        }
        Packet::Stop(StopPacket { tick: ticks.into() })
            .encode(&mut stream, &handler.state_handler)
            .unwrap();
    }
    out
}

struct Decoded {
    header: Header,
    packets: Vec<Packet<'static>>,
}

/// The entities that a receiver of the packets sees at their end, each with
/// the last value of its second property.
fn visible(packets: &[Packet<'static>]) -> Vec<(u32, Option<i64>)> {
    let mut seen: std::collections::BTreeMap<u32, Option<i64>> = std::collections::BTreeMap::new();
    for packet in packets {
        if let Packet::Message(inner) = packet {
            for message in &inner.messages {
                if let Message::PacketEntities(update) = message {
                    for entity in &update.entities {
                        let index = u32::from(entity.entity_index);
                        match entity.update_type {
                            UpdateType::Leave | UpdateType::Delete => {
                                seen.remove(&index);
                            }
                            _ => {
                                let known = seen.entry(index).or_insert(None);
                                for prop in &entity.props {
                                    if prop.index == 1 {
                                        if let SendPropValue::Integer(value) = prop.value {
                                            *known = Some(value);
                                        }
                                    }
                                }
                            }
                        }
                    }
                    for index in &update.removed_entities {
                        seen.remove(&u32::from(*index));
                    }
                }
            }
        }
    }
    seen.into_iter().collect()
}

fn decode(bytes: &[u8]) -> Decoded {
    let demo = Demo::owned(bytes.to_vec());
    let mut stream = demo.get_stream();
    let header = Header::read(&mut stream).unwrap();
    let mut handler = DemoHandler::default();
    handler.handle_header(&header);
    let mut source = RawPacketStream::new(stream);
    let mut packets = Vec::new();
    while let Some(packet) = source.next(&handler.state_handler).unwrap() {
        packets.push(packet.clone());
        handler.handle_packet(packet).unwrap();
    }
    Decoded { header, packets }
}

fn server_ticks(packets: &[Packet<'static>]) -> Vec<u32> {
    let mut ticks = Vec::new();
    for packet in packets {
        if let Packet::Message(inner) = packet {
            for message in &inner.messages {
                if let Message::NetTick(marker) = message {
                    ticks.push(u32::from(marker.tick));
                }
            }
        }
    }
    ticks
}

#[test]
fn the_made_up_capture_decodes() {
    let decoded = decode(&capture(60));
    assert_eq!(decoded.header.ticks, 60);
    assert_eq!(decoded.packets.last().unwrap().packet_type(), PacketType::Stop);
    assert_eq!(visible(&decoded.packets), vec![(1, Some(60))]);
}

#[test]
fn cut_rewrites_the_header_and_ends_with_a_stop_at_the_length() {
    let out = cut(&capture(60), 30, 50).unwrap();
    let decoded = decode(&out);
    assert_eq!(decoded.header.ticks, 20);
    assert_eq!(decoded.header.map, "map");
    match decoded.packets.last().unwrap() {
        Packet::Stop(stop) => assert_eq!(u32::from(stop.tick), 20),
        other => panic!("the cut ends with {:?}", other.packet_type()),
    }
}

#[test]
fn cut_keeps_the_definitions_and_counts_ticks_from_the_start() {
    let out = cut(&capture(60), 30, 50).unwrap();
    let decoded = decode(&out);
    assert_eq!(decoded.packets[0], signon());
    assert_eq!(decoded.packets[1], data_tables());
    assert_eq!(decoded.packets[2], Packet::SyncTick(SyncTickPacket { tick: 0.into() }));
    let copied: Vec<&Packet> = decoded
        .packets
        .iter()
        .filter(|p| u32::from(p.tick()) > 0 && p.packet_type() == PacketType::Message)
        .collect();
    let ticks: Vec<u32> = copied.iter().map(|p| u32::from(p.tick())).collect();
    assert_eq!(ticks, (1..=20).collect::<Vec<u32>>());
    for packet in &copied {
        let mut expected = message_packet_with(u32::from(packet.tick()) + 30, false);
        expected.set_tick(packet.tick());
        assert_eq!(**packet, expected);
    }
}

#[test]
fn cut_drops_closed_captions() {
    let source = decode(&capture(60));
    let with = source.packets.iter().find(|p| u32::from(p.tick()) == 35).unwrap();
    assert_eq!(*with, message_packet_with(35, true));
    let out = decode(&cut(&capture(60), 30, 50).unwrap());
    let without = out
        .packets
        .iter()
        .find(|p| u32::from(p.tick()) == 5 && p.packet_type() == PacketType::Message)
        .unwrap();
    match without {
        Packet::Message(inner) => {
            assert_eq!(inner.messages.len(), 3);
            assert_eq!(inner.messages[2], train());
        }
        _ => unreachable!(),
    }
}

#[test]
fn cut_begins_with_the_string_tables_as_they_stand_at_the_start() {
    let out = decode(&cut(&capture(60), 30, 50).unwrap());
    match &out.packets[3] {
        Packet::Message(inner) => {
            assert_eq!(u32::from(inner.tick), 0);
            assert_eq!(inner.messages.len(), 2);
            assert_eq!(
                inner.messages[0],
                Message::NetTick(NetTickMessage { tick: 1027.into(), frame_time: 1881, std_dev: 263 })
            );
            assert_eq!(inner.messages[1], table_write(&[(2, "bar"), (5, "baz")]));
        }
        other => panic!("the cut goes on with {:?}", other.packet_type()),
    }
}

#[test]
fn cut_is_framed_by_the_rewritten_header_and_the_stop_packet() {
    let bytes = capture(60);
    let out = cut(&bytes, 30, 50).unwrap();
    let mut rewritten = header(20);
    rewritten.frames = 60;
    let mut head = Vec::new();
    rewritten.write(&mut BitWriteStream::new(&mut head, LittleEndian)).unwrap();
    assert_eq!(head.len(), 1072);
    assert_eq!(&out[..head.len()], &head[..]);
    assert_eq!(&out[out.len() - 4..], &[7, 20, 0, 0]);
    let long = cut(&capture(700), 100, 600).unwrap();
    assert_eq!(&long[long.len() - 4..], &[7, 244, 1, 0]);
}

#[test]
fn cut_refuses_a_range_too_long_for_a_stop_packet() {
    let mut head = header(0x0200_0000);
    let mut bytes = Vec::new();
    head.write(&mut BitWriteStream::new(&mut bytes, LittleEndian)).unwrap();
    assert_eq!(cut(&bytes, 0, u32::MAX), Err(CutError::InvalidRange));
    assert_eq!(cut(&bytes, 0, 0x0100_0000), Err(CutError::InvalidRange));
    // one tick less fits; the capture then ends before the start is reached
    assert_eq!(cut(&bytes, 0, 0x00ff_ffff), Err(CutError::MissingPivot));
    head.ticks = 0x0100_0009;
    let mut shorter = Vec::new();
    head.write(&mut BitWriteStream::new(&mut shorter, LittleEndian)).unwrap();
    assert_eq!(cut(&shorter, 10, u32::MAX), Err(CutError::MissingPivot));
    assert_eq!(cut(&shorter, 9, u32::MAX), Err(CutError::InvalidRange));
}

#[test]
fn cut_drops_console_commands() {
    let out = cut(&capture(60), 30, 50).unwrap();
    let decoded = decode(&out);
    assert!(decoded.packets.iter().all(|p| p.packet_type() != PacketType::ConsoleCmd));
}

#[test]
fn cut_leaves_no_server_tick_out() {
    let out = cut(&capture(60), 30, 50).unwrap();
    let decoded = decode(&out);
    let ticks = server_ticks(&decoded.packets);
    // the pivot is the packet of tick 30, whose basis is server tick 1029
    assert_eq!(ticks[0], 1027);
    assert_eq!(*ticks.last().unwrap(), 1050);
    for pair in ticks.windows(2) {
        assert!(pair[1] == pair[0] || pair[1] == pair[0] + 1, "{} follows {}", pair[1], pair[0]);
    }
}

#[test]
fn cut_brings_a_fresh_decoder_to_the_same_entities() {
    let bytes = capture(60);
    let source = decode(&bytes);
    let upto = |tick: u32| -> Vec<Packet<'static>> {
        source.packets.iter().filter(|p| u32::from(p.tick()) <= tick).cloned().collect()
    };
    let whole = decode(&cut(&bytes, 30, 60).unwrap());
    assert_eq!(visible(&whole.packets), visible(&source.packets));
    let part = decode(&cut(&bytes, 30, 40).unwrap());
    assert_eq!(visible(&part.packets), visible(&upto(40)));
    assert_eq!(visible(&part.packets), vec![(1, Some(40)), (4, None)]);
    // at the start of the range the synthesized packets alone give the state
    let mut synthesized: Vec<Packet<'static>> =
        part.packets.iter().filter(|p| u32::from(p.tick()) == 0).cloned().collect();
    // the last packet at tick zero is the pivot
    synthesized.pop();
    assert_eq!(visible(&synthesized), visible(&upto(29)));
}

#[test]
fn cut_twice_gives_the_same_bytes() {
    let bytes = capture(60);
    let first = cut(&bytes, 30, 50).unwrap();
    let second = cut(&bytes, 30, 50).unwrap();
    assert_eq!(first, second);
}

#[test]
fn cut_clamps_the_end_to_the_capture() {
    let bytes = capture(60);
    let clamped = cut(&bytes, 30, 5000).unwrap();
    assert_eq!(clamped, cut(&bytes, 30, 60).unwrap());
    let decoded = decode(&clamped);
    assert_eq!(decoded.header.ticks, 30);
}

#[test]
fn cut_clamps_the_start_to_ten_ticks_before_the_end() {
    let bytes = capture(60);
    let clamped = cut(&bytes, 58, 60).unwrap();
    assert_eq!(clamped, cut(&bytes, 50, 60).unwrap());
    let decoded = decode(&clamped);
    assert_eq!(decoded.header.ticks, 10);
}

#[test]
fn cut_refuses_bytes_that_hold_no_header() {
    assert_eq!(cut(&[1, 2, 3], 0, 10), Err(CutError::Decode));
}

#[test]
fn cut_refuses_a_range_the_wrong_way_round() {
    assert_eq!(cut(&capture(60), 40, 20), Err(CutError::InvalidRange));
}

#[test]
fn cut_refuses_a_capture_shorter_than_the_margin() {
    assert_eq!(cut(&capture(5), 0, 5), Err(CutError::InvalidRange));
}

#[test]
fn cut_refuses_a_pivot_without_a_delta_update() {
    // the first message packet carries a full update
    assert_eq!(cut(&capture(60), 0, 20), Err(CutError::PivotWithoutEntities));
}

#[test]
fn cut_refuses_a_basis_with_no_room_before_it() {
    let header = header(60);
    let mut bytes = Vec::new();
    {
        let mut stream = BitWriteStream::new(&mut bytes, LittleEndian);
        header.write(&mut stream).unwrap();
        let mut handler = DemoHandler::default();
        handler.handle_header(&header);
        let mut list = vec![data_tables()];
        list.push(Packet::Message(MessagePacket {
            tick: 30.into(),
            messages: vec![Message::PacketEntities(PacketEntitiesMessage {
                entities: vec![],
                removed_entities: vec![],
                max_entries: 16,
                delta: Some(1.into()),
                base_line: BaselineIndex::First,
                updated_base_line: false,
            })],
            meta: MessagePacketMeta::default(),
        }));
        for packet in list {
            packet.encode(&mut stream, &handler.state_handler).unwrap();
            handler.handle_packet(packet).unwrap();
        }
    }
    assert_eq!(cut(&bytes, 30, 40), Err(CutError::BasisOutOfRange));
}

#[test]
fn cut_refuses_a_capture_that_ends_before_the_start() {
    let header = header(60);
    let mut bytes = Vec::new();
    {
        let mut stream = BitWriteStream::new(&mut bytes, LittleEndian);
        header.write(&mut stream).unwrap();
        let handler = DemoHandler::default();
        data_tables().encode(&mut stream, &handler.state_handler).unwrap();
    }
    assert_eq!(cut(&bytes, 30, 40), Err(CutError::MissingPivot));
}

/// A capture like `capture`, without console commands.
fn quiet_capture(ticks: u32) -> Vec<u8> {
    let header = header(ticks);
    let mut out = Vec::new();
    {
        let mut stream = BitWriteStream::new(&mut out, LittleEndian);
        header.write(&mut stream).unwrap();
        let mut handler = DemoHandler::default();
        handler.handle_header(&header);
        for packet in packets(ticks) {
            if packet.packet_type() == PacketType::ConsoleCmd {
                continue;
            }
            packet.encode(&mut stream, &handler.state_handler).unwrap();
            handler.handle_packet(packet).unwrap();
        }
        Packet::Stop(StopPacket { tick: ticks.into() })
            .encode(&mut stream, &handler.state_handler)
            .unwrap();
    }
    out
}

#[test]
fn test_reparse_game_state() {
    let file = quiet_capture(60);
    let output = cut(&file, 30, 50).unwrap();

    let source_parser =
        DemoParser::new_with_analyser(Demo::owned(file).get_stream(), GameStateAnalyser::default());
    let cut_parser = DemoParser::new_with_analyser(
        Demo::owned(output).get_stream(),
        GameStateAnalyser::default(),
    );

    let mut source_ticks = source_parser.ticker().unwrap().1;
    let mut cut_ticks = cut_parser.ticker().unwrap().1;

    while let Some(tick) = source_ticks.next().unwrap() {
        if tick.tick > 40 && tick.tick < 50 {
            break;
        }
    }

    while let Some(tick) = cut_ticks.next().unwrap() {
        if tick.tick > 10 && tick.tick < 20 {
            break;
        }
    }

    source_ticks.next().unwrap().expect("no more ticks in the capture");
    cut_ticks.next().unwrap().expect("no more ticks in cut");

    let mut compared = 0;
    while let (Some(source_tick), Some(cut_tick)) =
        (source_ticks.next().unwrap(), cut_ticks.next().unwrap())
    {
        if u32::from(source_tick.tick) > 50 {
            // the capture goes on behind the end of the cut
            break;
        }
        assert_eq!(u32::from(source_tick.tick), u32::from(cut_tick.tick) + 30);
        let source_state = &source_tick.state;
        let cut_state = &cut_tick.state;

        assert_eq!(source_state.world, cut_state.world);
        assert_eq!(source_state.players, cut_state.players);
        assert_eq!(source_state.buildings, cut_state.buildings);
        compared += 1;
    }
    assert!(compared >= 7);
}

#[test]
fn cut_tags_the_entities_that_left_before_the_start() {
    let out = decode(&cut(&capture(60), 30, 50).unwrap());
    let mut found = false;
    for packet in &out.packets {
        let Packet::Message(inner) = packet else { continue };
        if inner.messages.len() != 2 {
            continue;
        }
        let at_basis = matches!(
            &inner.messages[0],
            Message::NetTick(marker) if u32::from(marker.tick) == 1029 && marker.frame_time == 1881
        );
        if !at_basis {
            continue;
        }
        let Message::PacketEntities(update) = &inner.messages[1] else { continue };
        let tags: Vec<(u32, UpdateType)> =
            update.entities.iter().map(|e| (u32::from(e.entity_index), e.update_type)).collect();
        assert_eq!(tags, vec![(2, UpdateType::Delete), (3, UpdateType::Leave)]);
        assert_eq!(update.delta.map(u32::from), Some(1028));
        found = true;
    }
    assert!(found);
}

#[test]
fn cut_fails_to_write_a_table_that_no_kept_packet_creates() {
    let header = header(60);
    let mut bytes = Vec::new();
    {
        let mut stream = BitWriteStream::new(&mut bytes, LittleEndian);
        header.write(&mut stream).unwrap();
        let mut handler = DemoHandler::default();
        handler.handle_header(&header);
        let mut list = vec![data_tables()];
        // the table is created in a packet that the cut does not keep
        let create = match signon() {
            Packet::Signon(inner) => Packet::Message(inner),
            _ => unreachable!(),
        };
        list.push(create);
        for tick in 1..=60 {
            list.push(message_packet(tick));
        }
        for packet in list {
            packet.encode(&mut stream, &handler.state_handler).unwrap();
            handler.handle_packet(packet).unwrap();
        }
    }
    assert_eq!(cut(&bytes, 30, 50), Err(CutError::Encode));
}
