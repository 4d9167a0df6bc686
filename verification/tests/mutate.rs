use std::collections::BTreeSet;
use democutter::model::CLOSE_CAPTION;
use democutter::mutate::{PacketMessageFilter, PacketMessageMutator};
use democutter::{
    cut_mutators, stream, CaptionFilter, DeleteFilter, DemoMessage, DemoPacket, Entity,
    EntityUpdate, MessageFilter, MessageMutator, Mutator, MutatorList, PacketKind, PacketMutator,
    TickRebase, UpdateType,
};
use tf_demo_parser::demo::message::Message;
use tf_demo_parser::demo::packet::consolecmd::ConsoleCmdPacket;
use tf_demo_parser::demo::packet::message::MessagePacketMeta;
use tf_demo_parser::demo::packet::Packet;

fn entity(index: u32, kind: UpdateType) -> Entity {
    Entity {
        entity_index: index,
        server_class: 0,
        serial_number: 0,
        update_type: kind,
        in_pvs: false,
        props: vec![],
        baseline_props: vec![],
    }
}

fn entities(delta: Option<u32>, list: Vec<Entity>) -> DemoMessage {
    DemoMessage::Entities(EntityUpdate {
        entities: list,
        removed_entities: vec![77],
        max_entries: 9,
        delta,
        base_line: 1,
        updated_base_line: true,
    })
}

fn user(kind: u8) -> DemoMessage {
    DemoMessage::User { kind, raw: Message::Empty }
}

fn tick_marker(tick: u32) -> DemoMessage {
    DemoMessage::NetTick { tick, frame_time: 1, std_dev: 2 }
}

fn packet(tick: u32, messages: Vec<DemoMessage>) -> DemoPacket {
    DemoPacket::Messages { tick, messages, meta: Some(MessagePacketMeta::default()) }
}

fn console(tick: u32) -> DemoPacket {
    DemoPacket::Raw {
        kind: PacketKind::ConsoleCmd,
        tick,
        raw: Packet::ConsoleCmd(ConsoleCmdPacket { tick: tick.into(), command: "x".into() }),
    }
}

fn known(ids: &[u32]) -> BTreeSet<u32> {
    let mut set = BTreeSet::new();
    for id in ids {
        set.insert(*id);
    }
    set
}

fn kinds(message: &DemoMessage) -> Vec<(u32, UpdateType)> {
    match message {
        DemoMessage::Entities(update) => {
            update.entities.iter().map(|e| (e.entity_index, e.update_type)).collect()
        }
        _ => panic!("no entity update"),
    }
}

#[test]
fn caption_filter_keeps_all_but_closed_captions() {
    assert_eq!(CLOSE_CAPTION, 14);
    assert!(!CaptionFilter.filter(&user(14)));
    assert!(CaptionFilter.filter(&user(13)));
    assert!(CaptionFilter.filter(&user(4)));
    assert!(CaptionFilter.filter(&tick_marker(1)));
    assert!(CaptionFilter.filter(&entities(None, vec![])));
}

#[test]
fn message_filter_drops_messages_in_place() {
    let mut p = packet(5, vec![user(14), tick_marker(9), user(14), user(3), user(14)]);
    PacketMessageFilter { filter: CaptionFilter }.mutate_packet(&mut p);
    assert_eq!(p, packet(5, vec![tick_marker(9), user(3)]));
    let mut other = console(5);
    PacketMessageFilter { filter: CaptionFilter }.mutate_packet(&mut other);
    assert_eq!(other, console(5));
}

#[test]
fn delete_filter_drops_removals_of_unknown_entities() {
    let filter = DeleteFilter::new(known(&[1, 2]), 100);
    let mut message = entities(
        Some(99),
        vec![
            entity(1, UpdateType::Leave),
            entity(3, UpdateType::Leave),
            entity(4, UpdateType::Delete),
            entity(2, UpdateType::Delete),
            entity(5, UpdateType::Enter),
            entity(6, UpdateType::Preserve),
        ],
    );
    filter.mutate_message(&mut message);
    assert_eq!(
        kinds(&message),
        vec![
            (1, UpdateType::Leave),
            (2, UpdateType::Delete),
            (5, UpdateType::Enter),
            (6, UpdateType::Preserve)
        ]
    );
    match message {
        DemoMessage::Entities(update) => {
            assert_eq!(update.removed_entities, vec![77]);
            assert_eq!(update.max_entries, 9);
            assert_eq!(update.delta, Some(99));
            assert_eq!(update.base_line, 1);
            assert!(update.updated_base_line);
        }
        _ => unreachable!(),
    }
}

#[test]
fn delete_filter_leaves_updates_from_the_boundary_on_alone() {
    let filter = DeleteFilter::new(known(&[]), 100);
    let list = vec![entity(3, UpdateType::Leave), entity(4, UpdateType::Delete)];
    let mut at = entities(Some(100), list.clone());
    filter.mutate_message(&mut at);
    assert_eq!(at, entities(Some(100), list.clone()));
    let mut full = entities(None, list.clone());
    filter.mutate_message(&mut full);
    assert_eq!(full, entities(None, list.clone()));
    let mut before = entities(Some(99), list);
    filter.mutate_message(&mut before);
    assert_eq!(before, entities(Some(99), vec![]));
    let mut marker = tick_marker(3);
    filter.mutate_message(&mut marker);
    assert_eq!(marker, tick_marker(3));
}

#[test]
fn message_mutator_rewrites_every_message_of_a_packet() {
    let step = PacketMessageMutator { mutator: DeleteFilter::new(known(&[]), 100) };
    let mut p = packet(
        1,
        vec![
            entities(Some(1), vec![entity(3, UpdateType::Leave)]),
            tick_marker(2),
            entities(Some(2), vec![entity(4, UpdateType::Delete), entity(5, UpdateType::Enter)]),
        ],
    );
    step.mutate_packet(&mut p);
    assert_eq!(
        p,
        packet(
            1,
            vec![
                entities(Some(1), vec![]),
                tick_marker(2),
                entities(Some(2), vec![entity(5, UpdateType::Enter)]),
            ]
        )
    );
}

#[test]
fn tick_rebase_counts_from_the_start() {
    let rebase = TickRebase { start_tick: 30 };
    let mut p = packet(45, vec![tick_marker(1045)]);
    rebase.mutate_packet(&mut p);
    assert_eq!(p, packet(15, vec![tick_marker(1045)]));
    let mut at = packet(30, vec![]);
    rebase.mutate_packet(&mut at);
    assert_eq!(at.tick(), 0);
    let mut raw = console(31);
    rebase.mutate_packet(&mut raw);
    assert_eq!(raw.tick(), 1);
    assert_eq!(raw.kind(), PacketKind::ConsoleCmd);
}

#[test]
fn tick_rebase_stops_at_zero() {
    let rebase = TickRebase { start_tick: 30 };
    let mut early = packet(29, vec![]);
    rebase.mutate_packet(&mut early);
    assert_eq!(early.tick(), 0);
    let mut first = console(0);
    rebase.mutate_packet(&mut first);
    assert_eq!(first.tick(), 0);
}

#[test]
fn mutator_list_applies_its_steps_in_order() {
    let mut list = MutatorList::new();
    let mut untouched = packet(50, vec![user(14)]);
    list.mutate_packet(&mut untouched);
    assert_eq!(untouched, packet(50, vec![user(14)]));
    list.push_packet_mutator(TickRebase { start_tick: 30 });
    list.push_mutator(Mutator::Packet(TickRebase { start_tick: 15 }));
    list.push_message_filter(CaptionFilter);
    list.push_message_mutator(DeleteFilter::new(known(&[]), 10));
    let mut p = packet(
        50,
        vec![user(14), entities(Some(1), vec![entity(1, UpdateType::Leave)]), user(1)],
    );
    list.mutate_packet(&mut p);
    assert_eq!(p, packet(5, vec![entities(Some(1), vec![]), user(1)]));
}

#[test]
fn the_steps_of_a_cut_filter_rewrite_and_rebase() {
    let steps = cut_mutators(known(&[1]), 1040, 30);
    let mut p = packet(
        42,
        vec![
            tick_marker(1042),
            user(14),
            entities(
                Some(1039),
                vec![entity(1, UpdateType::Leave), entity(2, UpdateType::Delete)],
            ),
            entities(Some(1040), vec![entity(2, UpdateType::Delete)]),
        ],
    );
    steps.mutate_packet(&mut p);
    assert_eq!(
        p,
        packet(
            12,
            vec![
                tick_marker(1042),
                entities(Some(1039), vec![entity(1, UpdateType::Leave)]),
                entities(Some(1040), vec![entity(2, UpdateType::Delete)]),
            ]
        )
    );
}

#[test]
fn stream_writes_all_but_console_commands_and_ends_at_the_end_tick() {
    let steps = cut_mutators(known(&[]), 0, 30);
    let step = stream(&steps, packet(40, vec![user(14), user(2)]), 50);
    assert_eq!(step.packet, packet(10, vec![user(2)]));
    assert!(step.written);
    assert!(!step.last);
    let step = stream(&steps, console(49), 50);
    assert_eq!(step.packet.tick(), 19);
    assert!(!step.written);
    assert!(!step.last);
    let step = stream(&steps, packet(50, vec![]), 50);
    assert!(step.written);
    assert!(step.last);
    let step = stream(&steps, console(51), 50);
    assert!(!step.written);
    assert!(step.last);
}

#[test]
fn a_packet_fits_the_wire_when_its_entity_indices_do() {
    let fits = packet(1, vec![entities(Some(1), vec![entity(2047, UpdateType::Enter)]), user(1)]);
    assert!(democutter::fits_packet(&fits));
    let large = packet(
        1,
        vec![
            tick_marker(1),
            entities(Some(1), vec![entity(1, UpdateType::Enter), entity(2048, UpdateType::Leave)]),
        ],
    );
    assert!(!democutter::fits_packet(&large));
    assert!(!democutter::fits_packet(&packet(
        1,
        vec![entities(None, vec![entity(2147483647, UpdateType::Enter)])]
    )));
    assert!(democutter::fits_packet(&console(3)));
    assert!(democutter::fits_packet(&packet(1, vec![])));
    match &large {
        DemoPacket::Messages { messages, .. } => match &messages[1] {
            DemoMessage::Entities(update) => assert!(!democutter::fits_update(update)),
            _ => unreachable!(),
        },
        _ => unreachable!(),
    }
}
