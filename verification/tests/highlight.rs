use bitbuffer::{BitError, BitReadBuffer, BitReadStream, LittleEndian};
use democutter::highlight::{
    names_no_entity, read_signal, signal_of, GameSignal, UserRecord, AIRSHOT_DAMAGE,
};
use democutter::{CutError, Highlight, HighlightAnalyser, HighlightSource};
use tf_demo_parser::demo::gameevent_gen::{
    GameEvent, GameEventType, PlayerHurtEvent, PlayerSpawnEvent, RocketJumpEvent,
    RocketJumpLandedEvent, StickyJumpEvent, StickyJumpLandedEvent,
};
use tf_demo_parser::demo::message::gameevent::{GameEventMessage, GameEventTypeId};
use tf_demo_parser::demo::message::usermessage::{
    ChatMessageKind, SayText2Message, TrainMessage, UserMessage,
};
use tf_demo_parser::demo::message::{Message, NetTickMessage};
use tf_demo_parser::demo::packet::stringtable::StringTableEntry;

fn hurt(user_id: u16, attacker: u16, damage_amount: u16) -> GameSignal {
    GameSignal::PlayerHurt { user_id, attacker, damage_amount }
}

fn chat(client: u32, text: &str) -> GameSignal {
    GameSignal::Chat { client, text: text.to_string() }
}

fn run(signals: Vec<(GameSignal, u32)>) -> Vec<Highlight> {
    let mut analyser = HighlightAnalyser::new();
    for (signal, tick) in &signals {
        analyser.handle_message(signal, *tick);
    }
    analyser.into_output()
}

#[test]
fn a_hard_hit_on_a_jumping_player_is_an_airshot() {
    assert_eq!(AIRSHOT_DAMAGE, 50);
    let found = run(vec![
        (GameSignal::ExplosiveJump { user_id: 7 }, 10),
        (hurt(7, 3, 51), 12),
    ]);
    assert_eq!(found, vec![Highlight { tick: 12, user: 7, source: HighlightSource::AirShot }]);
}

#[test]
fn a_hit_needs_more_than_fifty_damage() {
    let found = run(vec![
        (GameSignal::ExplosiveJump { user_id: 7 }, 10),
        (hurt(7, 3, 50), 12),
        (hurt(7, 3, 0), 13),
    ]);
    assert!(found.is_empty());
}

#[test]
fn a_hit_on_oneself_is_no_airshot() {
    let found = run(vec![
        (GameSignal::ExplosiveJump { user_id: 7 }, 10),
        (hurt(7, 7, 200), 12),
    ]);
    assert!(found.is_empty());
}

#[test]
fn a_player_on_the_ground_is_no_airshot() {
    assert!(run(vec![(hurt(7, 3, 200), 12)]).is_empty());
    let landed = run(vec![
        (GameSignal::ExplosiveJump { user_id: 7 }, 10),
        (GameSignal::ExplosiveLanded { user_id: 7 }, 11),
        (hurt(7, 3, 200), 12),
    ]);
    assert!(landed.is_empty());
    let spawned = run(vec![
        (GameSignal::ExplosiveJump { user_id: 7 }, 10),
        (GameSignal::PlayerSpawn { user_id: 7 }, 11),
        (hurt(7, 3, 200), 12),
    ]);
    assert!(spawned.is_empty());
    let other = run(vec![
        (GameSignal::ExplosiveJump { user_id: 8 }, 10),
        (hurt(7, 3, 200), 12),
    ]);
    assert!(other.is_empty());
}

#[test]
fn a_bookmark_in_chat_is_a_highlight() {
    let found = run(vec![
        (chat(4, "[P-REC] Bookmark."), 77),
        (chat(5, "[P-REC] Bookmark"), 78),
        (chat(6, "hello"), 79),
        (GameSignal::Other, 80),
    ]);
    assert_eq!(found, vec![Highlight { tick: 77, user: 4, source: HighlightSource::Prec }]);
}

#[test]
fn highlights_come_in_the_order_of_their_messages() {
    let found = run(vec![
        (GameSignal::ExplosiveJump { user_id: 1 }, 1),
        (hurt(1, 2, 90), 2),
        (chat(9, "[P-REC] Bookmark."), 3),
        (hurt(1, 2, 60), 4),
    ]);
    assert_eq!(
        found,
        vec![
            Highlight { tick: 2, user: 1, source: HighlightSource::AirShot },
            Highlight { tick: 3, user: 9, source: HighlightSource::Prec },
            Highlight { tick: 4, user: 1, source: HighlightSource::AirShot },
        ]
    );
}

#[test]
fn only_the_user_info_table_is_read() {
    assert!(HighlightAnalyser::is_user_table("userinfo"));
    assert!(!HighlightAnalyser::is_user_table("userinf"));
    assert!(!HighlightAnalyser::is_user_table("instancebaseline"));
}

#[test]
fn string_entries_and_users_leave_the_highlights_alone() {
    let mut analyser = HighlightAnalyser::new();
    analyser.handle_message(&chat(4, "[P-REC] Bookmark."), 5);
    let entry = StringTableEntry { text: Some("3".to_string().into()), extra_data: None };
    analyser.handle_string_entry("userinfo", 3, &entry);
    analyser.handle_string_entry("other", 3, &entry);
    assert_eq!(analyser.parse_user_info(3, &entry), Ok(()));
    analyser.handle_user(UserRecord {
        user_id: 2,
        entity_id: 3,
        name: "a".to_string(),
        steam_id: "b".to_string(),
    });
    assert_eq!(
        analyser.into_output(),
        vec![Highlight { tick: 5, user: 4, source: HighlightSource::Prec }]
    );
}

fn event(event_type: GameEventType, event: GameEvent) -> Message<'static> {
    let mut bits = BitReadStream::new(BitReadBuffer::new_owned(vec![0, 0], LittleEndian));
    let event_type_id: GameEventTypeId = bits.read().unwrap();
    Message::GameEvent(GameEventMessage { event_type_id, event_type, event })
}

fn say(client: u32, text: &str) -> Message<'static> {
    Message::UserMessage(UserMessage::SayText2(Box::new(SayText2Message {
        client: client.into(),
        raw: 1,
        kind: ChatMessageKind::ChatAll,
        from: Some("somebody".into()),
        text: text.into(),
    })))
}

fn same(found: GameSignal, wanted: GameSignal) {
    assert_eq!(format!("{:?}", found), format!("{:?}", wanted));
}

#[test]
fn signal_of_takes_the_first_part_that_is_there() {
    same(signal_of(None, None, None, None, None), GameSignal::Other);
    same(
        signal_of(Some((1, 2, 3)), Some(4), Some(5), Some(6), Some((7, "x".to_string()))),
        hurt(1, 2, 3),
    );
    same(
        signal_of(None, Some(4), Some(5), Some(6), Some((7, "x".to_string()))),
        GameSignal::ExplosiveJump { user_id: 4 },
    );
    same(
        signal_of(None, None, Some(5), Some(6), Some((7, "x".to_string()))),
        GameSignal::ExplosiveLanded { user_id: 5 },
    );
    same(
        signal_of(None, None, None, Some(6), Some((7, "x".to_string()))),
        GameSignal::PlayerSpawn { user_id: 6 },
    );
    same(signal_of(None, None, None, None, Some((7, "x".to_string()))), chat(7, "x"));
}

#[test]
fn read_signal_reads_the_events_of_the_detector() {
    let hit = PlayerHurtEvent {
        user_id: 7,
        health: 100,
        attacker: 3,
        damage_amount: 88,
        custom: 0,
        show_disguised_crit: false,
        crit: false,
        mini_crit: false,
        all_see_crit: false,
        weapon_id: 0,
        bonus_effect: 0,
    };
    same(
        read_signal(&event(GameEventType::PlayerHurt, GameEvent::PlayerHurt(hit))),
        hurt(7, 3, 88),
    );
    same(
        read_signal(&event(
            GameEventType::RocketJump,
            GameEvent::RocketJump(RocketJumpEvent { user_id: 11, play_sound: true }),
        )),
        GameSignal::ExplosiveJump { user_id: 11 },
    );
    same(
        read_signal(&event(
            GameEventType::StickyJump,
            GameEvent::StickyJump(StickyJumpEvent { user_id: 12, play_sound: false }),
        )),
        GameSignal::ExplosiveJump { user_id: 12 },
    );
    same(
        read_signal(&event(
            GameEventType::RocketJumpLanded,
            GameEvent::RocketJumpLanded(RocketJumpLandedEvent { user_id: 13 }),
        )),
        GameSignal::ExplosiveLanded { user_id: 13 },
    );
    same(
        read_signal(&event(
            GameEventType::StickyJumpLanded,
            GameEvent::StickyJumpLanded(StickyJumpLandedEvent { user_id: 14 }),
        )),
        GameSignal::ExplosiveLanded { user_id: 14 },
    );
    same(
        read_signal(&event(
            GameEventType::PlayerSpawn,
            GameEvent::PlayerSpawn(PlayerSpawnEvent { user_id: 15, team: 2, class: 3 }),
        )),
        GameSignal::PlayerSpawn { user_id: 15 },
    );
}

#[test]
fn read_signal_reads_chat_and_passes_over_the_rest() {
    same(read_signal(&say(4, "[P-REC] Bookmark.")), chat(4, "[P-REC] Bookmark."));
    same(read_signal(&Message::Empty), GameSignal::Other);
    same(
        read_signal(&Message::UserMessage(UserMessage::Train(TrainMessage { data: 1 }))),
        GameSignal::Other,
    );
    same(
        read_signal(&Message::NetTick(NetTickMessage {
            tick: 5.into(),
            frame_time: 1,
            std_dev: 1,
        })),
        GameSignal::Other,
    );
}

#[test]
fn a_bookmark_read_from_the_codec_is_a_highlight() {
    let mut analyser = HighlightAnalyser::new();
    analyser.handle_message(&read_signal(&say(4, "[P-REC] Bookmark.")), 9);
    assert_eq!(
        analyser.into_output(),
        vec![Highlight { tick: 9, user: 4, source: HighlightSource::Prec }]
    );
}

#[test]
fn note_user_entry_tells_a_player_from_nothing_and_from_an_error() {
    let mut analyser = HighlightAnalyser::new();
    let record = UserRecord {
        user_id: 2,
        entity_id: 3,
        name: "a".to_string(),
        steam_id: "b".to_string(),
    };
    assert_eq!(analyser.note_user_entry(Ok(Some(record))), Ok(()));
    assert_eq!(analyser.note_user_entry(Ok(None)), Ok(()));
    let unread = BitError::NotEnoughData { requested: 8, bits_left: 0 };
    assert_eq!(analyser.note_user_entry(Err(unread)), Err(CutError::Decode));
}

#[test]
fn a_user_entry_that_cannot_be_read_is_an_error() {
    let mut analyser = HighlightAnalyser::new();
    let truncated = StringTableEntry {
        text: Some("3".to_string().into()),
        extra_data: Some(tf_demo_parser::demo::packet::stringtable::ExtraData::new(
            BitReadStream::new(BitReadBuffer::new_owned(vec![1, 2, 3], LittleEndian)),
        )),
    };
    assert_eq!(analyser.parse_user_info(3, &truncated), Err(CutError::Decode));
    analyser.handle_string_entry("userinfo", 3, &truncated);
    assert!(analyser.into_output().is_empty());
}

#[test]
fn every_error_has_its_description() {
    assert_eq!(CutError::Decode.message(), "the capture could not be decoded");
    assert_eq!(CutError::Encode.message(), "a packet could not be encoded");
    assert_eq!(
        CutError::InvalidRange.message(),
        "the requested tick range does not fit the capture"
    );
    assert_eq!(CutError::MissingPivot.message(), "the capture ends before the start tick");
    assert_eq!(
        CutError::PivotWithoutEntities.message(),
        "the packet at the start tick carries no delta entity update, pick a different start tick"
    );
    assert_eq!(CutError::BasisOutOfRange.message(), "the basis tick at the start tick is too small");
    assert_eq!(
        CutError::ClassMismatch.message(),
        "an entity changed its class without a new serial number"
    );
}

#[test]
fn the_largest_number_names_no_entity() {
    assert!(names_no_entity(Some(u32::MAX), true));
    assert!(!names_no_entity(Some(u32::MAX), false));
    assert!(!names_no_entity(Some(u32::MAX - 1), true));
    assert!(!names_no_entity(Some(0), true));
    assert!(!names_no_entity(None, true));
    assert!(!names_no_entity(None, false));
}

fn user_entry(text: &str, data: Option<Vec<u8>>) -> StringTableEntry<'static> {
    StringTableEntry {
        text: Some(text.to_string().into()),
        extra_data: data.map(|bytes| {
            tf_demo_parser::demo::packet::stringtable::ExtraData::new(BitReadStream::new(
                BitReadBuffer::new_owned(bytes, LittleEndian),
            ))
        }),
    }
}

/// Extra data that the codec reads as a player with an account.
fn player_data() -> Vec<u8> {
    let mut bytes = vec![0u8; 140];
    bytes[0] = b'n';
    bytes[32] = 9;
    bytes[36] = b's';
    bytes
}

#[test]
fn a_user_entry_with_the_largest_number_is_an_error() {
    let mut analyser = HighlightAnalyser::new();
    let entry = user_entry("4294967295", Some(player_data()));
    assert_eq!(analyser.parse_user_info(3, &entry), Err(CutError::Decode));
    let plus = user_entry("+4294967295", Some(player_data()));
    assert_eq!(analyser.parse_user_info(3, &plus), Err(CutError::Decode));
    analyser.handle_string_entry("userinfo", 3, &entry);
    let bare = user_entry("4294967295", None);
    assert_eq!(analyser.parse_user_info(3, &bare), Ok(()));
}

#[test]
fn a_user_entry_with_a_number_and_a_player_is_read() {
    let mut analyser = HighlightAnalyser::new();
    assert_eq!(analyser.parse_user_info(3, &user_entry("4294967294", Some(player_data()))), Ok(()));
    assert_eq!(analyser.parse_user_info(3, &user_entry("7", Some(player_data()))), Ok(()));
    assert_eq!(analyser.parse_user_info(3, &user_entry("seven", Some(player_data()))), Ok(()));
}
