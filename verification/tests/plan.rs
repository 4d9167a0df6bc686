use democutter::plan::{
    clamp_range, is_preserved, msg_packet, net_tick, pivot_basis, synthesize, PivotBasis,
    TickRange, START_MARGIN,
};
use democutter::{
    ActiveEntities, BaselineSlots, CutError, DemoMessage, DemoPacket, Entity, EntityUpdate,
    PacketKind, PrerollStep, StartState, StringTablesUpdates, TableEntry, TableUpdate, UpdateType,
};
use tf_demo_parser::demo::message::Message;
use tf_demo_parser::demo::packet::message::MessagePacketMeta;
use tf_demo_parser::demo::packet::stringtable::StringTableEntry;
use tf_demo_parser::demo::packet::synctick::SyncTickPacket;
use tf_demo_parser::demo::packet::Packet;

fn entity(index: u32, kind: UpdateType) -> Entity {
    Entity {
        entity_index: index,
        server_class: 0,
        serial_number: 1,
        update_type: kind,
        in_pvs: true,
        props: vec![],
        baseline_props: vec![],
    }
}

fn update(delta: Option<u32>, max_entries: u16, base_line: u8, list: Vec<Entity>) -> EntityUpdate {
    EntityUpdate {
        entities: list,
        removed_entities: vec![],
        max_entries,
        delta,
        base_line,
        updated_base_line: false,
    }
}

fn packet(tick: u32, messages: Vec<DemoMessage>) -> DemoPacket {
    DemoPacket::Messages { tick, messages, meta: Some(MessagePacketMeta::default()) }
}

fn sync(tick: u32) -> DemoPacket {
    DemoPacket::Raw {
        kind: PacketKind::SyncTick,
        tick,
        raw: Packet::SyncTick(SyncTickPacket { tick: tick.into() }),
    }
}

fn write(table_id: u8, slot: u16, text: &str) -> TableUpdate {
    TableUpdate {
        table_id,
        entries: vec![TableEntry {
            slot,
            entry: StringTableEntry { text: Some(text.to_string().into()), extra_data: None },
        }],
    }
}

fn server_tick(packet: &DemoPacket) -> u32 {
    match packet {
        DemoPacket::Messages { messages, .. } => match messages[0] {
            DemoMessage::NetTick { tick, .. } => tick,
            _ => panic!("no tick marker in front"),
        },
        _ => panic!("no message packet"),
    }
}

fn payload(packet: &DemoPacket) -> &DemoMessage {
    match packet {
        DemoPacket::Messages { messages, .. } => {
            assert_eq!(messages.len(), 2);
            &messages[1]
        }
        _ => panic!("no message packet"),
    }
}

fn entity_payload(packet: &DemoPacket) -> &EntityUpdate {
    match payload(packet) {
        DemoMessage::Entities(update) => update,
        _ => panic!("no entity update"),
    }
}

#[test]
fn clamp_range_leaves_a_range_inside_the_capture_alone() {
    assert_eq!(START_MARGIN, 10);
    assert_eq!(clamp_range(60000, 30000, 50000), Ok(TickRange { start: 30000, end: 50000 }));
    assert_eq!(clamp_range(100, 90, 100), Ok(TickRange { start: 90, end: 100 }));
    assert_eq!(clamp_range(100, 20, 20), Ok(TickRange { start: 20, end: 20 }));
}

#[test]
fn clamp_range_cuts_the_end_back_to_the_capture() {
    assert_eq!(clamp_range(1000, 300, 5000), Ok(TickRange { start: 300, end: 1000 }));
    assert_eq!(clamp_range(1000, 300, u32::MAX), Ok(TickRange { start: 300, end: 1000 }));
}

#[test]
fn clamp_range_moves_the_start_back_to_the_margin() {
    assert_eq!(clamp_range(1000, 995, 1000), Ok(TickRange { start: 990, end: 1000 }));
    assert_eq!(clamp_range(1000, 991, 2000), Ok(TickRange { start: 990, end: 1000 }));
    assert_eq!(clamp_range(1000, 5000, 6000), Ok(TickRange { start: 990, end: 1000 }));
    assert_eq!(clamp_range(10, 5, 10), Ok(TickRange { start: 0, end: 10 }));
}

#[test]
fn clamp_range_refuses_what_cannot_be_cut() {
    assert_eq!(clamp_range(9, 0, 5), Err(CutError::InvalidRange));
    assert_eq!(clamp_range(0, 0, 0), Err(CutError::InvalidRange));
    assert_eq!(clamp_range(1000, 500, 400), Err(CutError::InvalidRange));
    assert_eq!(clamp_range(1000, 995, 980), Err(CutError::InvalidRange));
}

#[test]
fn definitions_and_sync_packets_are_preserved() {
    assert!(is_preserved(PacketKind::Signon));
    assert!(is_preserved(PacketKind::DataTables));
    assert!(is_preserved(PacketKind::StringTables));
    assert!(is_preserved(PacketKind::SyncTick));
    assert!(!is_preserved(PacketKind::Message));
    assert!(!is_preserved(PacketKind::ConsoleCmd));
    assert!(!is_preserved(PacketKind::UserCmd));
    assert!(!is_preserved(PacketKind::Stop));
}

#[test]
fn pivot_basis_reads_the_last_delta_update() {
    let pivot = packet(
        30,
        vec![
            net_tick(1030),
            DemoMessage::Entities(update(Some(1020), 8, 0, vec![])),
            DemoMessage::Entities(update(Some(1029), 16, 1, vec![])),
            DemoMessage::Entities(update(None, 32, 0, vec![])),
        ],
    );
    assert_eq!(
        pivot_basis(&pivot),
        Ok(PivotBasis { delta_tick: 1029, max_entries: 16, base_line: 1 })
    );
}

#[test]
fn pivot_basis_refuses_a_packet_without_a_delta_update() {
    assert_eq!(pivot_basis(&sync(30)), Err(CutError::PivotWithoutEntities));
    assert_eq!(pivot_basis(&packet(30, vec![])), Err(CutError::PivotWithoutEntities));
    let full = packet(30, vec![net_tick(5), DemoMessage::Entities(update(None, 8, 0, vec![]))]);
    assert_eq!(pivot_basis(&full), Err(CutError::PivotWithoutEntities));
}

#[test]
fn pivot_basis_needs_room_for_two_ticks() {
    let at = |delta: u32| packet(30, vec![DemoMessage::Entities(update(Some(delta), 8, 0, vec![]))]);
    assert_eq!(pivot_basis(&at(0)), Err(CutError::BasisOutOfRange));
    assert_eq!(pivot_basis(&at(1)), Err(CutError::BasisOutOfRange));
    assert_eq!(pivot_basis(&at(2)), Ok(PivotBasis { delta_tick: 2, max_entries: 8, base_line: 0 }));
}

#[test]
fn synthesized_packets_begin_with_a_tick_marker() {
    assert_eq!(net_tick(7), DemoMessage::NetTick { tick: 7, frame_time: 1881, std_dev: 263 });
    let made = msg_packet(vec![net_tick(7)]);
    assert_eq!(
        made,
        DemoPacket::Messages { tick: 0, messages: vec![net_tick(7)], meta: None }
    );
}

#[test]
fn synthesize_orders_tables_baselines_snapshot_removal_and_fillers() {
    let mut entities = ActiveEntities::new();
    entities
        .handle_message(&update(Some(1), 24, 0, vec![entity(1, UpdateType::Enter)]))
        .unwrap();
    let mut tables = StringTablesUpdates::new();
    tables.handle_update(&write(4, 1, "four"));
    tables.handle_update(&write(2, 9, "two"));
    let baselines = BaselineSlots {
        first: vec![entity(1, UpdateType::Enter)],
        second: vec![entity(5, UpdateType::Enter)],
    };
    let basis = PivotBasis { delta_tick: 1029, max_entries: 16, base_line: 1 };
    let packets = synthesize(entities, tables, &baselines, basis, 1032);
    let ticks: Vec<u32> = packets.iter().map(server_tick).collect();
    assert_eq!(ticks, vec![1027, 1027, 1027, 1027, 1028, 1029, 1030, 1031, 1032]);
    for p in &packets {
        assert_eq!(p.tick(), 0);
        assert_eq!(p.kind(), PacketKind::Message);
    }
    assert_eq!(payload(&packets[0]), &DemoMessage::TableUpdate(write(2, 9, "two")));
    assert_eq!(payload(&packets[1]), &DemoMessage::TableUpdate(write(4, 1, "four")));
    let second = entity_payload(&packets[2]);
    assert_eq!(second.base_line, 1);
    assert!(second.updated_base_line);
    assert_eq!(second.entities, vec![entity(5, UpdateType::Enter)]);
    assert_eq!(second.max_entries, 24);
    let first = entity_payload(&packets[3]);
    assert_eq!(first.base_line, 0);
    assert!(first.updated_base_line);
    assert_eq!(first.entities, vec![entity(1, UpdateType::Enter)]);
    let snapshot = entity_payload(&packets[4]);
    assert_eq!(snapshot.delta, Some(1027));
    assert_eq!(snapshot.entities, vec![entity(1, UpdateType::Enter)]);
    let removal = entity_payload(&packets[5]);
    assert_eq!(removal.delta, Some(1028));
    assert_eq!(removal.entities.len(), 1);
    assert_eq!(removal.entities[0].entity_index, 5);
    assert_eq!(removal.entities[0].update_type, UpdateType::Leave);
    for filler in &packets[6..] {
        assert_eq!(entity_payload(filler), &update(Some(1028), 16, 1, vec![]));
    }
}

#[test]
fn synthesize_needs_no_fillers_when_the_basis_is_the_last_tick() {
    let basis = PivotBasis { delta_tick: 50, max_entries: 16, base_line: 0 };
    let empty = BaselineSlots { first: vec![], second: vec![] };
    let at = synthesize(ActiveEntities::new(), StringTablesUpdates::new(), &empty, basis, 50);
    assert_eq!(at.iter().map(server_tick).collect::<Vec<u32>>(), vec![48, 48, 49, 50]);
    let before = synthesize(ActiveEntities::new(), StringTablesUpdates::new(), &empty, basis, 7);
    assert_eq!(before.iter().map(server_tick).collect::<Vec<u32>>(), vec![48, 48, 49, 50]);
    let one = synthesize(ActiveEntities::new(), StringTablesUpdates::new(), &empty, basis, 51);
    assert_eq!(one.iter().map(server_tick).collect::<Vec<u32>>(), vec![48, 48, 49, 50, 51]);
}

#[test]
fn preroll_keeps_preserved_packets_whatever_their_tick() {
    let mut state = StartState::new();
    assert!(matches!(state.preroll(sync(0), 30), Ok(PrerollStep::Kept)));
    assert!(matches!(state.preroll(sync(99), 30), Ok(PrerollStep::Kept)));
}

#[test]
fn preroll_hands_back_the_first_packet_at_the_start() {
    let mut state = StartState::new();
    let before = packet(29, vec![net_tick(1029)]);
    assert!(matches!(state.preroll(before, 30), Ok(PrerollStep::Folded)));
    let pivot = packet(30, vec![net_tick(1030)]);
    match state.preroll(pivot.clone(), 30) {
        Ok(PrerollStep::Pivot(found)) => assert_eq!(found, pivot),
        _ => panic!("the packet at the start is the pivot"),
    }
    let later = packet(31, vec![DemoMessage::Other { raw: Message::Empty }]);
    assert!(matches!(state.preroll(later, 30), Ok(PrerollStep::Pivot(_))));
}

#[test]
fn preroll_passes_on_what_the_entity_tracker_refuses() {
    let mut state = StartState::new();
    let mut known = entity(1, UpdateType::Enter);
    known.server_class = 3;
    let mut changed = entity(1, UpdateType::Preserve);
    changed.server_class = 4;
    let first = packet(1, vec![DemoMessage::Entities(update(None, 8, 0, vec![known]))]);
    let second = packet(2, vec![DemoMessage::Entities(update(Some(1), 8, 0, vec![changed]))]);
    assert!(matches!(state.preroll(first, 30), Ok(PrerollStep::Folded)));
    assert!(matches!(state.preroll(second, 30), Err(CutError::ClassMismatch)));
}
