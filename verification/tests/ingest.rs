use rusty_shock::osc::osc::{
    apply_packet, decode_datagram, handle_packet, ingest_datagram, Argument, OscMessage,
    OscPacket, MTU,
};
use rusty_shock::osc::touchpoints::{
    display_and_handle_touchpoints, initialize_commandmap, process_message, CommandMap,
    CommandState, Device, Ingest, Touchpoints,
};

fn chest() -> Touchpoints {
    Touchpoints {
        touchpoints: vec![Device {
            address: String::from("chest"),
            method: vec![0],
            intensity: 1_000_000,
            duration: 50,
            ids: vec![1, 2],
        }],
    }
}

fn encode(addr: &str, args: Vec<rosc::OscType>) -> Vec<u8> {
    let packet = rosc::OscPacket::Message(rosc::OscMessage { addr: String::from(addr), args });
    rosc::encoder::encode(&packet).unwrap()
}

fn float_message(addr: &str, value: f32) -> OscMessage {
    OscMessage { addr: String::from(addr), arg: Argument::Float(value.to_bits()) }
}

fn contents(store: &CommandMap) -> Vec<CommandState> {
    let mut states = Vec::new();
    let mut i = 0;
    while i < store.len() {
        states.push(store.state_at(i));
        i += 1;
    }
    states
}

#[test]
fn decode_datagram_reads_address_and_float() {
    let bytes = encode("/avatar/parameters/chest", vec![rosc::OscType::Float(0.8)]);
    match decode_datagram(&bytes) {
        Some(OscPacket::Message(msg)) => {
            assert_eq!(msg.addr, "/avatar/parameters/chest");
            assert_eq!(msg.arg, Argument::Float(0.8f32.to_bits()));
            assert_eq!(msg.arg, Argument::Float(0x3f4c_cccd));
        }
        other => panic!("no message: {:?}", other),
    }
}

#[test]
fn decode_datagram_reads_only_the_first_argument() {
    let bytes = encode(
        "/a/chest",
        vec![rosc::OscType::Float(0.25), rosc::OscType::Int(7), rosc::OscType::Float(0.5)],
    );
    match decode_datagram(&bytes) {
        Some(OscPacket::Message(msg)) => assert_eq!(msg.arg, Argument::Float(0.25f32.to_bits())),
        other => panic!("no message: {:?}", other),
    }
}

#[test]
fn decode_datagram_tells_other_arguments_apart() {
    let cases = vec![
        rosc::OscType::Int(1),
        rosc::OscType::Double(0.5),
        rosc::OscType::String(String::from("0.5")),
        rosc::OscType::Bool(true),
        rosc::OscType::Long(1),
        rosc::OscType::Nil,
    ];
    for case in cases {
        let bytes = encode("/a/chest", vec![case]);
        match decode_datagram(&bytes) {
            Some(OscPacket::Message(msg)) => assert_eq!(msg.arg, Argument::Other),
            other => panic!("no message: {:?}", other),
        }
    }
}

#[test]
fn decode_datagram_reports_a_missing_argument() {
    let bytes = encode("/a/chest", vec![]);
    match decode_datagram(&bytes) {
        Some(OscPacket::Message(msg)) => {
            assert_eq!(msg.addr, "/a/chest");
            assert_eq!(msg.arg, Argument::Missing);
        }
        other => panic!("no message: {:?}", other),
    }
}

#[test]
fn decode_datagram_recognises_a_bundle() {
    let inner = rosc::OscPacket::Message(rosc::OscMessage {
        addr: String::from("/a/chest"),
        args: vec![rosc::OscType::Float(0.5)],
    });
    let bundle = rosc::OscPacket::Bundle(rosc::OscBundle {
        timetag: rosc::OscTime { seconds: 1, fractional: 2 },
        content: vec![inner],
    });
    let bytes = rosc::encoder::encode(&bundle).unwrap();
    assert!(matches!(decode_datagram(&bytes), Some(OscPacket::Bundle)));
}

#[test]
fn decode_datagram_rejects_garbage() {
    assert!(decode_datagram(&[]).is_none());
    assert!(decode_datagram(&[0]).is_none());
    assert!(decode_datagram(&[0xff, 0xfe, 0xfd]).is_none());
    assert!(decode_datagram(b"not an osc packet").is_none());
    assert!(decode_datagram(b"/unterminated").is_none());
    assert!(decode_datagram(&[0x2f, 0xff, 0xff, 0x00]).is_none());
}

#[test]
fn decode_datagram_rejects_what_is_longer_than_a_datagram() {
    let mut bytes = encode("/a/chest", vec![rosc::OscType::Float(0.5)]);
    assert!(decode_datagram(&bytes).is_some());
    bytes.resize(MTU, 0);
    assert!(decode_datagram(&bytes).is_some());
    bytes.resize(MTU + 1, 0);
    assert!(decode_datagram(&bytes).is_none());
}

#[test]
fn handle_packet_picks_the_message() {
    let picked = handle_packet(OscPacket::Message(float_message("/a/chest", 0.5)));
    match picked {
        Some(msg) => {
            assert_eq!(msg.addr, "/a/chest");
            assert_eq!(msg.arg, Argument::Float(0.5f32.to_bits()));
        }
        None => panic!("the message was dropped"),
    }
    assert!(handle_packet(OscPacket::Bundle).is_none());
}

#[test]
fn process_message_refreshes_every_pair() {
    let registry = Touchpoints {
        touchpoints: vec![Device {
            address: String::from("chest"),
            method: vec![0, 1],
            intensity: 500_000,
            duration: 120,
            ids: vec![1, 2],
        }],
    };
    let mut store = CommandMap::new();
    let outcome = process_message(&float_message("/x/chest", 0.5), &registry, &mut store, 10_000);
    assert_eq!(outcome, Ingest::Applied);
    assert_eq!(store.len(), 4);
    for (id, method) in [(1u32, 0u8), (1, 1), (2, 0), (2, 1)] {
        assert_eq!(
            store.get(id, method),
            Some(CommandState {
                device_id: id,
                method,
                duration: 120,
                intensity: 250_000,
                last_issued: 10_000,
                expiry: 10_120,
            })
        );
    }
}

#[test]
fn process_message_clamps_the_level() {
    let registry = Touchpoints {
        touchpoints: vec![Device {
            address: String::from("chest"),
            method: vec![0],
            intensity: 3_000_000,
            duration: 50,
            ids: vec![1],
        }],
    };
    let mut store = CommandMap::new();
    process_message(&float_message("chest", 0.5), &registry, &mut store, 0);
    assert_eq!(store.get(1, 0).unwrap().intensity, 1_000_000);
    process_message(&float_message("chest", -0.5), &registry, &mut store, 0);
    assert_eq!(store.get(1, 0).unwrap().intensity, 0);
    process_message(&float_message("chest", 7.0), &registry, &mut store, 0);
    assert_eq!(store.get(1, 0).unwrap().intensity, 1_000_000);
    process_message(&float_message("chest", f32::NAN), &registry, &mut store, 0);
    assert_eq!(store.get(1, 0).unwrap().intensity, 0);
    process_message(&float_message("chest", 0.1), &registry, &mut store, 0);
    assert_eq!(store.get(1, 0).unwrap().intensity, 300_000);
}

#[test]
fn process_message_drops_an_unknown_touchpoint() {
    let registry = chest();
    let mut store = initialize_commandmap(&registry, 0);
    store.upsert(1, 0, 400_000, 50, 5);
    let before = contents(&store);
    let outcome = process_message(&float_message("/x/leg", 0.5), &registry, &mut store, 10);
    assert_eq!(outcome, Ingest::UnknownTouchpoint);
    assert_eq!(contents(&store), before);
    let outcome = process_message(&float_message("/x/chest/", 0.5), &registry, &mut store, 10);
    assert_eq!(outcome, Ingest::UnknownTouchpoint);
    assert_eq!(contents(&store), before);
}

#[test]
fn process_message_drops_what_is_no_float() {
    let registry = chest();
    let mut store = initialize_commandmap(&registry, 0);
    store.upsert(1, 0, 400_000, 50, 5);
    let before = contents(&store);
    let other = OscMessage { addr: String::from("/x/chest"), arg: Argument::Other };
    assert_eq!(process_message(&other, &registry, &mut store, 10), Ingest::NotAFloat);
    assert_eq!(contents(&store), before);
    let missing = OscMessage { addr: String::from("/x/chest"), arg: Argument::Missing };
    assert_eq!(process_message(&missing, &registry, &mut store, 10), Ingest::NotAFloat);
    assert_eq!(contents(&store), before);
}

#[test]
fn process_message_reports_an_unknown_touchpoint_before_the_argument() {
    let registry = chest();
    let mut store = CommandMap::new();
    let msg = OscMessage { addr: String::from("/x/leg"), arg: Argument::Other };
    assert_eq!(process_message(&msg, &registry, &mut store, 10), Ingest::UnknownTouchpoint);
    assert_eq!(store.len(), 0);
}

#[test]
fn process_message_keeps_held_keys_in_place() {
    let registry = chest();
    let mut store = CommandMap::new();
    store.upsert(2, 0, 1, 50, 0);
    store.upsert(9, 9, 1, 50, 0);
    process_message(&float_message("/x/chest", 0.5), &registry, &mut store, 10);
    assert_eq!(store.len(), 3);
    assert_eq!(store.state_at(0).key_string(), "2_0");
    assert_eq!(store.state_at(0).intensity, 500_000);
    assert_eq!(store.state_at(1).key_string(), "9_9");
    assert_eq!(store.state_at(1).intensity, 1);
    assert_eq!(store.state_at(2).key_string(), "1_0");
}

#[test]
fn malformed_input_is_dropped_and_ingestion_goes_on() {
    let registry = chest();
    let mut store = initialize_commandmap(&registry, 0);
    let before = contents(&store);

    assert_eq!(ingest_datagram(&[0xde, 0xad, 0xbe, 0xef, 0x01], &registry, &mut store, 10), Ingest::Malformed);
    assert_eq!(contents(&store), before);

    let not_a_float = encode("/avatar/parameters/chest", vec![rosc::OscType::Int(1)]);
    assert_eq!(ingest_datagram(&not_a_float, &registry, &mut store, 11), Ingest::NotAFloat);
    assert_eq!(contents(&store), before);

    let unregistered = encode("/avatar/parameters/leg", vec![rosc::OscType::Float(0.8)]);
    assert_eq!(ingest_datagram(&unregistered, &registry, &mut store, 12), Ingest::UnknownTouchpoint);
    assert_eq!(contents(&store), before);

    let good = encode("/avatar/parameters/chest", vec![rosc::OscType::Float(0.8)]);
    assert_eq!(ingest_datagram(&good, &registry, &mut store, 13), Ingest::Applied);
    assert_eq!(store.get(1, 0).unwrap().intensity, 800_000);
    assert_eq!(store.get(2, 0).unwrap().intensity, 800_000);
}

#[test]
fn ingest_datagram_ignores_bundles_and_empty_messages() {
    let registry = chest();
    let mut store = initialize_commandmap(&registry, 0);
    let before = contents(&store);
    let bundle = rosc::OscPacket::Bundle(rosc::OscBundle {
        timetag: rosc::OscTime { seconds: 0, fractional: 0 },
        content: vec![rosc::OscPacket::Message(rosc::OscMessage {
            addr: String::from("/x/chest"),
            args: vec![rosc::OscType::Float(0.8)],
        })],
    });
    let bytes = rosc::encoder::encode(&bundle).unwrap();
    assert_eq!(ingest_datagram(&bytes, &registry, &mut store, 10), Ingest::Bundle);
    assert_eq!(contents(&store), before);
    let empty = encode("/x/chest", vec![]);
    assert_eq!(ingest_datagram(&empty, &registry, &mut store, 10), Ingest::NotAFloat);
    assert_eq!(contents(&store), before);
    assert_eq!(ingest_datagram(&[], &registry, &mut store, 10), Ingest::Malformed);
    assert_eq!(contents(&store), before);
}

#[test]
fn ingest_datagram_drops_what_is_too_long() {
    let registry = chest();
    let mut store = CommandMap::new();
    let mut bytes = encode("/x/chest", vec![rosc::OscType::Float(0.8)]);
    bytes.resize(MTU + 1, 0);
    assert_eq!(ingest_datagram(&bytes, &registry, &mut store, 10), Ingest::Malformed);
    assert_eq!(store.len(), 0);
}

#[test]
fn apply_packet_handles_each_kind() {
    let registry = chest();
    let mut store = CommandMap::new();
    assert_eq!(apply_packet(None, &registry, &mut store, 1), Ingest::Malformed);
    assert_eq!(apply_packet(Some(OscPacket::Bundle), &registry, &mut store, 1), Ingest::Bundle);
    assert_eq!(store.len(), 0);
    let packet = OscPacket::Message(float_message("/x/chest", 1.0));
    assert_eq!(apply_packet(Some(packet), &registry, &mut store, 1), Ingest::Applied);
    assert_eq!(store.get(2, 0).unwrap().intensity, 1_000_000);
    assert_eq!(store.get(2, 0).unwrap().expiry, 51);
}

#[test]
fn touchpoint_loop_applies_messages_and_ends_when_the_source_closes() {
    let registry = chest();
    let mut store = CommandMap::new();
    let outcome = display_and_handle_touchpoints(
        Some(float_message("/x/chest", 0.5)),
        &registry,
        &mut store,
        100,
    );
    assert_eq!(outcome, Some(Ingest::Applied));
    assert_eq!(store.get(1, 0).unwrap().intensity, 500_000);
    let before = contents(&store);
    let outcome = display_and_handle_touchpoints(
        Some(float_message("/x/leg", 0.5)),
        &registry,
        &mut store,
        101,
    );
    assert_eq!(outcome, Some(Ingest::UnknownTouchpoint));
    assert_eq!(contents(&store), before);
    assert_eq!(display_and_handle_touchpoints(None, &registry, &mut store, 102), None);
    assert_eq!(contents(&store), before);
}
