use democutter::{DemoMessage, StringTablesUpdates, TableEntry, TableUpdate};
use tf_demo_parser::demo::packet::stringtable::StringTableEntry;

fn entry(text: &str) -> StringTableEntry<'static> {
    StringTableEntry { text: Some(text.to_string().into()), extra_data: None }
}

fn write(table_id: u8, entries: &[(u16, &str)]) -> TableUpdate {
    TableUpdate {
        table_id,
        entries: entries.iter().map(|(slot, text)| TableEntry { slot: *slot, entry: entry(text) }).collect(),
    }
}

fn texts(update: &TableUpdate) -> Vec<(u16, String)> {
    update.entries.iter().map(|e| (e.slot, e.entry.text().to_string())).collect()
}

#[test]
fn string_tables_keep_the_last_write_of_each_slot() {
    let mut tables = StringTablesUpdates::new();
    tables.handle_update(&write(3, &[(5, "a"), (2, "b"), (5, "c")]));
    tables.handle_update(&write(3, &[(2, "d"), (9, "e")]));
    let flat = tables.encode();
    assert_eq!(flat.len(), 1);
    assert_eq!(flat[0].table_id, 3);
    assert_eq!(
        texts(&flat[0]),
        vec![(2, "d".to_string()), (5, "c".to_string()), (9, "e".to_string())]
    );
}

#[test]
fn string_tables_are_flattened_by_table_and_slot() {
    let mut tables = StringTablesUpdates::new();
    tables.handle_update(&write(7, &[(1, "x")]));
    tables.handle_update(&write(0, &[(300, "y"), (4, "z")]));
    tables.handle_update(&write(2, &[(0, "w")]));
    let flat = tables.encode();
    let ids: Vec<u8> = flat.iter().map(|u| u.table_id).collect();
    assert_eq!(ids, vec![0, 2, 7]);
    assert_eq!(texts(&flat[0]), vec![(4, "z".to_string()), (300, "y".to_string())]);
    assert_eq!(texts(&flat[1]), vec![(0, "w".to_string())]);
    assert_eq!(texts(&flat[2]), vec![(1, "x".to_string())]);
}

#[test]
fn a_table_without_a_written_slot_gives_no_message() {
    let mut tables = StringTablesUpdates::new();
    tables.handle_update(&write(4, &[]));
    assert!(tables.encode().is_empty());
    assert!(StringTablesUpdates::new().encode().is_empty());
}

#[test]
fn string_tables_read_update_messages_only() {
    let mut tables = StringTablesUpdates::new();
    tables.handle_message(&DemoMessage::NetTick { tick: 1, frame_time: 2, std_dev: 3 });
    assert!(tables.encode().is_empty());
    let mut tables = StringTablesUpdates::new();
    tables.handle_message(&DemoMessage::TableUpdate(write(1, &[(8, "q")])));
    let flat = tables.encode();
    assert_eq!(flat.len(), 1);
    assert_eq!(texts(&flat[0]), vec![(8, "q".to_string())]);
}

#[test]
fn string_tables_carry_the_entry_as_it_was_written() {
    let mut tables = StringTablesUpdates::new();
    let written = write(1, &[(8, "payload")]);
    tables.handle_update(&written);
    let flat = tables.encode();
    assert_eq!(flat[0].entries[0].entry, written.entries[0].entry);
    assert_eq!(flat[0], written);
}
