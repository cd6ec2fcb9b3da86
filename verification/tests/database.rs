use can_log_decoder::scalar::Scalar;
use can_log_decoder::signals::database::{
    ByteOrder, ContainerDefinition, ContainerLayout, MessageDefinition, SignalDatabase,
    SignalDefinition, ValueType,
};
use can_log_decoder::types::ContainerType;

fn signal(name: &str) -> SignalDefinition {
    SignalDefinition {
        name: name.to_string(),
        start_bit: 0,
        length: 16,
        byte_order: ByteOrder::LittleEndian,
        value_type: ValueType::Unsigned,
        factor: Scalar::from_bits(1.0f64.to_bits()),
        offset: Scalar::from_bits(0.0f64.to_bits()),
        min: Scalar::from_bits(0.0f64.to_bits()),
        max: Scalar::from_bits(8000.0f64.to_bits()),
        unit: Some("rpm".to_string()),
        value_table: None,
        multiplexer_info: None,
    }
}

fn message(id: u32, name: &str, signals: Vec<SignalDefinition>, source: &str) -> MessageDefinition {
    MessageDefinition {
        id,
        name: name.to_string(),
        size: 8,
        sender: Some("ECU1".to_string()),
        signals,
        is_multiplexed: false,
        multiplexer_signal: None,
        source: source.to_string(),
    }
}

fn container(id: u32, name: &str) -> ContainerDefinition {
    ContainerDefinition {
        id,
        name: name.to_string(),
        container_type: ContainerType::Queued,
        layout: ContainerLayout::Queued { pdu_id: 1, pdu_size: 2 },
        source: "test.arxml".to_string(),
    }
}

#[test]
fn test_empty_database() {
    let db = SignalDatabase::new();
    let stats = db.stats();
    assert_eq!(stats.num_messages, 0);
    assert_eq!(stats.num_signals, 0);
    assert_eq!(stats.num_containers, 0);
}

#[test]
fn test_add_message() {
    let mut db = SignalDatabase::new();

    let signal = signal("EngineSpeed");

    let message = message(0x123, "EngineData", vec![signal], "test.dbc");

    db.add_message(message);

    let stats = db.stats();
    assert_eq!(stats.num_messages, 1);
    assert_eq!(stats.num_signals, 1);

    // Test retrieval
    let msg = db.get_message(0x123).unwrap();
    assert_eq!(msg.name, "EngineData");
    assert_eq!(msg.signals[0].name, "EngineSpeed");

    // Test signal lookup
    let found = db.find_signal("EngineSpeed");
    assert_eq!(found.len(), 1);
    assert_eq!(found[0].0, 0x123);
}

#[test]
fn first_added_message_wins_by_identifier() {
    let mut db = SignalDatabase::new();
    db.add_message(message(0x10, "First", vec![signal("A")], "a.dbc"));
    db.add_message(message(0x20, "Other", vec![], "a.dbc"));
    db.add_message(message(0x10, "Second", vec![signal("B"), signal("C")], "b.dbc"));
    assert_eq!(db.get_message(0x10).unwrap().name, "First");
    assert!(db.get_message(0x30).is_none());
    let all = db.get_messages(0x10).unwrap();
    let names: Vec<&str> = all.iter().map(|m| m.name.as_str()).collect();
    assert_eq!(names, vec!["First", "Second"]);
    assert!(db.get_messages(0x30).is_none());
    let stats = db.stats();
    assert_eq!(stats.num_messages, 3);
    assert_eq!(stats.num_signals, 3);
}

#[test]
fn last_added_message_wins_by_name() {
    let mut db = SignalDatabase::new();
    db.add_message(message(0x10, "Same", vec![], "a.dbc"));
    db.add_message(message(0x20, "Same", vec![], "b.dbc"));
    db.add_message(message(0x30, "Other", vec![], "b.dbc"));
    assert_eq!(db.get_message_by_name("Same").unwrap().id, 0x20);
    assert_eq!(db.get_message_by_name("Other").unwrap().id, 0x30);
    assert!(db.get_message_by_name("Missing").is_none());
    assert!(db.get_message_by_name("Sam").is_none());
}

#[test]
fn signals_are_found_through_the_first_message_of_an_identifier() {
    let mut db = SignalDatabase::new();
    db.add_message(message(0x10, "First", vec![signal("A"), signal("B")], "a.dbc"));
    db.add_message(message(0x10, "Second", vec![signal("X"), signal("A"), signal("A")], "b.dbc"));
    db.add_message(message(0x20, "Third", vec![signal("A")], "b.dbc"));
    let found = db.find_signal("A");
    let places: Vec<(u32, &str)> = found.iter().map(|(id, s)| (*id, s.name.as_str())).collect();
    // Index 0 of message 0x10, then index 1 and (missing) index 2 of the first message of 0x10,
    // then index 0 of message 0x20.
    assert_eq!(places, vec![(0x10, "A"), (0x10, "B"), (0x20, "A")]);
    assert!(db.find_signal("Nothing").is_empty());
}

#[test]
fn identifiers_come_out_rising_and_once() {
    let mut db = SignalDatabase::new();
    for id in [0x300u32, 0x100, 0x200, 0x100, 0xFFFF_FFFF, 0] {
        db.add_message(message(id, "M", vec![], "a.dbc"));
    }
    assert_eq!(db.get_all_can_ids(), vec![0, 0x100, 0x200, 0x300, 0xFFFF_FFFF]);
    assert_eq!(SignalDatabase::new().get_all_can_ids(), Vec::<u32>::new());
}

#[test]
fn later_container_replaces_earlier() {
    let mut db = SignalDatabase::new();
    db.add_container(container(0x100, "Old"));
    db.add_container(container(0x200, "Other"));
    db.add_container(container(0x100, "New"));
    assert_eq!(db.get_container(0x100).unwrap().name, "New");
    assert_eq!(db.get_container(0x200).unwrap().name, "Other");
    assert!(db.get_container(0x300).is_none());
    assert_eq!(db.stats().num_containers, 2);
    assert_eq!(db.stats().num_messages, 0);
}
